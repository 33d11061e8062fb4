//! The text tower of Gemma 4: layers with sliding and with full attention, of
//! which the last share the keys and values of earlier ones, and an embedding
//! of its own for each layer.

use vstd::prelude::*;

use crate::cache;
use crate::cache::{place_tokens, token_ids, Span};
use crate::config::ModelConfig;
use crate::error::{Error, ErrorView};
use crate::float_bits::F32;
use crate::json;
use crate::masks;
use crate::masks::attention_mask;
use crate::tensors::{Tensor, TensorMap};
use crate::text;
use crate::text::{concat2, decimal_text, same};
use crate::weights;
use crate::weights::{qlin, rms, take, Draw, Quantized, RmsNorm};

verus! {

/// How far the tokens of a layer look back.
#[derive(Debug, Clone, Copy, PartialEq, Eq, Structural)]
pub enum LayerType {
    Sliding,
    Full,
}

/// The layer type of a name.
pub open spec fn layer_type_of(s: Seq<char>) -> Option<LayerType> {
    if s == "sliding_attention"@ {
        Some(LayerType::Sliding)
    } else if s == "full_attention"@ {
        Some(LayerType::Full)
    } else {
        None
    }
}

/// The error of a name that is no layer type.
pub open spec fn unsupported_type(s: Seq<char>) -> ErrorView {
    ErrorView::InvalidConfig("unsupported Gemma4 layer type: "@ + s)
}

impl LayerType {
    /// The layer type of a name.
    pub fn from_str(s: &str) -> (r: Result<LayerType, Error>)
        ensures
            match r {
                Ok(t) => layer_type_of(s@) == Some(t),
                Err(e) => layer_type_of(s@) is None && e@ == unsupported_type(s@),
            },
    {
        if same(s, "sliding_attention") {
            Ok(LayerType::Sliding)
        } else if same(s, "full_attention") {
            Ok(LayerType::Full)
        } else {
            Err(Error::InvalidConfig(concat2("unsupported Gemma4 layer type: ", s)))
        }
    }
}

/// The first name that is no layer type.
pub open spec fn first_unsupported(names: Seq<Seq<char>>) -> Option<Seq<char>>
    decreases names.len(),
{
    if names.len() == 0 {
        None
    } else if first_unsupported(names.drop_last()) is Some {
        first_unsupported(names.drop_last())
    } else if layer_type_of(names.last()) is None {
        Some(names.last())
    } else {
        None
    }
}

/// What is wrong with the layer types of a configuration, if anything.
pub open spec fn types_defect(cfg: ModelConfig) -> Option<ErrorView> {
    if cfg.layer_types@.len() != cfg.num_hidden_layers {
        Some(
            ErrorView::InvalidConfig(
                "Gemma4 expected "@ + text::decimal(cfg.num_hidden_layers as nat)
                    + " layer_types, got "@ + text::decimal(cfg.layer_types@.len()),
            ),
        )
    } else {
        match first_unsupported(text::views(cfg.layer_types@)) {
            Some(s) => Some(unsupported_type(s)),
            None => None,
        }
    }
}

/// The layer types of a configuration.
pub open spec fn types_of(cfg: ModelConfig) -> Seq<LayerType> {
    Seq::new(cfg.layer_types@.len(), |i: int| layer_type_of(cfg.layer_types@[i]@).unwrap())
}

proof fn lemma_unsupported_stays(names: Seq<Seq<char>>, n: int)
    requires
        0 <= n <= names.len(),
        first_unsupported(names.take(n)) is Some,
    ensures
        first_unsupported(names) == first_unsupported(names.take(n)),
    decreases names.len(),
{
    if n == names.len() {
        assert(names.take(n) =~= names);
    } else {
        assert(names.drop_last().take(n) =~= names.take(n));
        lemma_unsupported_stays(names.drop_last(), n);
    }
}

/// The layer types of a configuration: one for each layer.
pub fn layer_types(cfg: &ModelConfig) -> (r: Result<Vec<LayerType>, Error>)
    ensures
        match r {
            Ok(types) => types_defect(*cfg) is None && types@ == types_of(*cfg),
            Err(e) => types_defect(*cfg) == Some(e@),
        },
{
    if cfg.layer_types.len() != cfg.num_hidden_layers {
        let mut m = "Gemma4 expected ".to_owned();
        m.append(decimal_text(cfg.num_hidden_layers as u64).as_str());
        m.append(" layer_types, got ");
        m.append(decimal_text(cfg.layer_types.len() as u64).as_str());
        return Err(Error::InvalidConfig(m));
    }
    let ghost names = text::views(cfg.layer_types@);
    let mut types: Vec<LayerType> = Vec::new();
    let mut i: usize = 0;
    while i < cfg.layer_types.len()
        invariant
            i <= cfg.layer_types@.len(),
            cfg.layer_types@.len() == cfg.num_hidden_layers,
            names == text::views(cfg.layer_types@),
            types@ =~= types_of(*cfg).take(i as int),
            first_unsupported(names.take(i as int)) is None,
        decreases cfg.layer_types@.len() - i,
    {
        proof {
            assert(names.take(i + 1).drop_last() =~= names.take(i as int));
            assert(names.take(i + 1).last() == cfg.layer_types@[i as int]@);
        }
        match LayerType::from_str(cfg.layer_types[i].as_str()) {
            Ok(t) => types.push(t),
            Err(e) => {
                proof {
                    lemma_unsupported_stays(names, i + 1);
                }
                return Err(e);
            },
        }
        i = i + 1;
    }
    proof {
        assert(names.take(i as int) =~= names);
        assert(types_of(*cfg).take(i as int) =~= types_of(*cfg));
    }
    Ok(types)
}

/// The last of the first `n` layers that has the type `t`.
pub open spec fn last_of(types: Seq<LayerType>, n: nat, t: LayerType) -> Option<nat>
    decreases n,
{
    if n == 0 {
        None
    } else if types[n - 1] == t {
        Some((n - 1) as nat)
    } else {
        last_of(types, (n - 1) as nat, t)
    }
}

/// The layer whose keys and values layer `i` uses: itself, where it is one of
/// the first `first_shared`; else the last of those that has its type.
pub open spec fn kv_donor(types: Seq<LayerType>, first_shared: nat, i: int) -> Option<nat> {
    if i < first_shared {
        Some(i as nat)
    } else {
        last_of(types, first_shared, types[i])
    }
}

/// Whether some layer has no keys and values to use.
pub open spec fn lacks_kv(types: Seq<LayerType>, first_shared: nat) -> bool {
    exists|i: int| 0 <= i < types.len() && (#[trigger] kv_donor(types, first_shared, i)) is None
}

/// The error of a layer without keys and values to use.
pub open spec fn no_prior_kv() -> ErrorView {
    ErrorView::InvalidConfig("Gemma4 shared layer lacks prior kv"@)
}

/// For each layer the one whose keys and values it uses.
pub fn previous_kvs(types: &Vec<LayerType>, first_kv_shared: usize) -> (r: Result<
    Vec<usize>,
    Error,
>)
    ensures
        match r {
            Ok(v) => v@.len() == types@.len() && forall|i: int|
                0 <= i < v@.len() ==> kv_donor(types@, first_kv_shared as nat, i) == Some(
                    (#[trigger] v@[i]) as nat,
                ),
            Err(e) => lacks_kv(types@, first_kv_shared as nat) && e@ == no_prior_kv(),
        },
{
    let mut previous: Vec<usize> = Vec::new();
    let mut sliding: Option<usize> = None;
    let mut full: Option<usize> = None;
    let mut i: usize = 0;
    let ghost mut owned: nat = 0;
    while i < types.len()
        invariant
            i <= types@.len(),
            previous@.len() == i,
            owned == if i < first_kv_shared {
                i as nat
            } else {
                first_kv_shared as nat
            },
            match sliding {
                Some(j) => last_of(types@, owned, LayerType::Sliding) == Some(j as nat),
                None => last_of(types@, owned, LayerType::Sliding) is None,
            },
            match full {
                Some(j) => last_of(types@, owned, LayerType::Full) == Some(j as nat),
                None => last_of(types@, owned, LayerType::Full) is None,
            },
            forall|j: int|
                0 <= j < i ==> kv_donor(types@, first_kv_shared as nat, j) == Some(
                    (#[trigger] previous@[j]) as nat,
                ),
        decreases types@.len() - i,
    {
        if i < first_kv_shared {
            previous.push(i);
            match types[i] {
                LayerType::Sliding => {
                    sliding = Some(i);
                },
                LayerType::Full => {
                    full = Some(i);
                },
            }
            proof {
                owned = (i + 1) as nat;
            }
        } else {
            let donor = match types[i] {
                LayerType::Sliding => sliding,
                LayerType::Full => full,
            };
            match donor {
                Some(j) => previous.push(j),
                None => {
                    assert(kv_donor(types@, first_kv_shared as nat, i as int) is None);
                    return Err(
                        Error::InvalidConfig("Gemma4 shared layer lacks prior kv".to_owned()),
                    );
                },
            }
        }
        i = i + 1;
    }
    Ok(previous)
}

/// A layer that shares keys and values uses those of an earlier layer of its
/// own type, which has its own.
pub proof fn law_shared_layers_use_an_earlier_layer_of_their_type(
    types: Seq<LayerType>,
    first_shared: nat,
    i: int,
)
    requires
        0 <= i < types.len(),
        first_shared <= i,
        kv_donor(types, first_shared, i) is Some,
    ensures
        ({
            let j = kv_donor(types, first_shared, i).unwrap();
            j < first_shared && types[j as int] == types[i] && kv_donor(
                types,
                first_shared,
                j as int,
            ) == Some(j)
        }),
{
    lemma_last_of(types, first_shared, types[i]);
}

/// No layer between the one used and the first that shares has that type.
pub proof fn law_shared_layers_use_the_nearest(
    types: Seq<LayerType>,
    first_shared: nat,
    i: int,
    k: int,
)
    requires
        0 <= i < types.len(),
        first_shared <= i,
        kv_donor(types, first_shared, i) is Some,
        kv_donor(types, first_shared, i).unwrap() < k < first_shared,
    ensures
        types[k] != types[i],
{
    lemma_last_is_last(types, first_shared, types[i], k);
}

proof fn lemma_last_of(types: Seq<LayerType>, n: nat, t: LayerType)
    ensures
        last_of(types, n, t) matches Some(j) ==> j < n && types[j as int] == t,
    decreases n,
{
    if n > 0 {
        lemma_last_of(types, (n - 1) as nat, t);
    }
}

proof fn lemma_last_is_last(types: Seq<LayerType>, n: nat, t: LayerType, k: int)
    requires
        last_of(types, n, t) is Some,
        last_of(types, n, t).unwrap() < k < n,
    ensures
        types[k] != t,
    decreases n,
{
    if n > 0 && types[n - 1] != t && k != n - 1 {
        lemma_last_is_last(types, (n - 1) as nat, t, k);
    }
}

/// A block of the text tower.
#[derive(Debug)]
pub struct Gemma4Layer<A> {
    pub layer_type: LayerType,
    /// Whether the layer has keys and values of its own.
    pub has_kv: bool,
    /// The layer whose keys and values it uses.
    pub previous_kv: usize,
    pub head_dim: i32,
    pub kv_heads: i32,
    pub input_norm: RmsNorm<A>,
    pub q_proj: Quantized<A>,
    pub k_proj: Option<Quantized<A>>,
    pub v_proj: Option<Quantized<A>>,
    pub q_norm: RmsNorm<A>,
    pub k_norm: Option<RmsNorm<A>>,
    /// The values are normalised without a weight.
    pub v_norm_eps: F32,
    pub o_proj: Quantized<A>,
    pub post_attn_norm: RmsNorm<A>,
    pub pre_ffn_norm: RmsNorm<A>,
    pub post_ffn_norm: RmsNorm<A>,
    pub gate_proj: Quantized<A>,
    pub up_proj: Quantized<A>,
    pub down_proj: Quantized<A>,
    pub per_layer_input_gate: Quantized<A>,
    pub per_layer_projection: Quantized<A>,
    pub post_per_layer_input_norm: RmsNorm<A>,
    pub layer_scalar: A,
}

/// The model.
#[derive(Debug)]
pub struct Gemma4<A> {
    pub cfg: ModelConfig,
    pub embed: Quantized<A>,
    pub embed_per_layer: Quantized<A>,
    pub per_layer_model_projection: Quantized<A>,
    pub per_layer_projection_norm: RmsNorm<A>,
    pub layers: Vec<Gemma4Layer<A>>,
    pub norm: RmsNorm<A>,
    /// The width of the embedding that each layer has for itself.
    pub hidden_per_layer: usize,
    /// The width of a head in a layer with full attention.
    pub full_head_dim: usize,
    pub sliding_window: i32,
}

/// Why a configuration is not supported, if it is not.
pub open spec fn unsupported(cfg: ModelConfig) -> Option<ErrorView> {
    if cfg.enable_moe_block {
        Some(
            ErrorView::ModelLoad(
                "Gemma4 MoE/A4B checkpoints are not supported yet; use dense E2B/E4B Gemma4 or LM Studio for this model"@,
            ),
        )
    } else if cfg.attention_k_eq_v {
        Some(ErrorView::ModelLoad("Gemma4 K-eq-V attention is not supported yet"@))
    } else if cfg.hidden_size_per_layer_input is None || cfg.hidden_size_per_layer_input == Some(
        0usize,
    ) {
        Some(
            ErrorView::ModelLoad(
                "Gemma4 checkpoint has no per-layer input embeddings; this loader currently supports dense E2B/E4B only"@,
            ),
        )
    } else {
        None
    }
}

/// The first layer that shares keys and values.
pub open spec fn first_shared(cfg: ModelConfig) -> nat {
    match cfg.num_kv_shared_layers {
        Some(n) => if n <= cfg.num_hidden_layers {
            (cfg.num_hidden_layers - n) as nat
        } else {
            0
        },
        None => cfg.num_hidden_layers as nat,
    }
}

/// What is wrong with the sharing of keys and values, if anything.
pub open spec fn sharing_defect(cfg: ModelConfig) -> Option<ErrorView> {
    if lacks_kv(types_of(cfg), first_shared(cfg)) {
        Some(no_prior_kv())
    } else {
        None
    }
}

/// The width of a head in a layer with full attention.
pub open spec fn full_head_dim(cfg: ModelConfig) -> usize {
    match cfg.global_head_dim {
        Some(n) => n,
        None => cfg.per_head_dim_spec(),
    }
}

/// The width of a head in a layer.
pub open spec fn head_dim_of(cfg: ModelConfig, t: LayerType) -> i32 {
    match t {
        LayerType::Sliding => cfg.per_head_dim_spec() as i32,
        LayerType::Full => full_head_dim(cfg) as i32,
    }
}

/// What the names of a layer's tensors begin with.
pub open spec fn layer_prefix(i: nat) -> Seq<char> {
    "language_model.model.layers."@ + text::decimal(i)
}

/// The tensors of layer `i` are taken.
#[verifier::opaque]
pub open spec fn layer_drawn<A>(r: Draw<A>, cfg: ModelConfig, i: nat) -> Draw<A> {
    let p = layer_prefix(i);
    let has_kv = i < first_shared(cfg);
    let r = weights::drawn(r, p + ".input_layernorm.weight"@);
    let r = weights::drawn_quantized(r, p + ".self_attn.q_proj"@);
    let r = weights::drawn_quantized_if(has_kv, r, p + ".self_attn.k_proj"@);
    let r = weights::drawn_quantized_if(has_kv, r, p + ".self_attn.v_proj"@);
    let r = weights::drawn(r, p + ".self_attn.q_norm.weight"@);
    let r = weights::drawn_if(has_kv, r, p + ".self_attn.k_norm.weight"@);
    let r = weights::drawn_quantized(r, p + ".self_attn.o_proj"@);
    let r = weights::drawn(r, p + ".post_attention_layernorm.weight"@);
    let r = weights::drawn(r, p + ".pre_feedforward_layernorm.weight"@);
    let r = weights::drawn(r, p + ".post_feedforward_layernorm.weight"@);
    let r = weights::drawn_quantized(r, p + ".mlp.gate_proj"@);
    let r = weights::drawn_quantized(r, p + ".mlp.up_proj"@);
    let r = weights::drawn_quantized(r, p + ".mlp.down_proj"@);
    let r = weights::drawn_quantized(r, p + ".per_layer_input_gate"@);
    let r = weights::drawn_quantized(r, p + ".per_layer_projection"@);
    let r = weights::drawn(r, p + ".post_per_layer_input_norm.weight"@);
    weights::drawn(r, p + ".layer_scalar"@)
}

/// What taking a layer leaves.
pub open spec fn one_layer<A>(cfg: ModelConfig) -> spec_fn(Draw<A>, nat) -> Draw<A> {
    |r: Draw<A>, i: nat| layer_drawn(r, cfg, i)
}

/// The tensors of the first `n` layers are taken.
pub open spec fn layers_drawn<A>(r: Draw<A>, cfg: ModelConfig, n: nat) -> Draw<A> {
    weights::drawn_in_turn(r, one_layer(cfg), n)
}

/// Behind a failure nothing is taken.
proof fn lemma_nothing_behind_a_failure<A>(cfg: ModelConfig, e: ErrorView)
    ensures
        forall|k: nat| #[trigger] one_layer::<A>(cfg)(weights::failed::<A>(e), k)
            == weights::failed::<A>(e),
{
    reveal(layer_drawn);
}

/// The tensors that belong to no layer, but for the last normalisation, are
/// taken, and the layers of the configuration are found in order.
pub open spec fn head_drawn<A>(m: Map<Seq<char>, Tensor<A>>, cfg: ModelConfig) -> Draw<A> {
    let r = weights::drawn_quantized(weights::left(m), "language_model.model.embed_tokens"@);
    let r = weights::drawn_quantized(r, "language_model.model.embed_tokens_per_layer"@);
    let r = weights::drawn_quantized(r, "language_model.model.per_layer_model_projection"@);
    let r = weights::drawn(r, "language_model.model.per_layer_projection_norm.weight"@);
    let r = weights::checked(r, types_defect(cfg));
    weights::checked(r, sharing_defect(cfg))
}

/// All tensors of the model are taken.
pub open spec fn model_drawn<A>(m: Map<Seq<char>, Tensor<A>>, cfg: ModelConfig) -> Draw<A> {
    let r = layers_drawn(head_drawn(m, cfg), cfg, cfg.num_hidden_layers as nat);
    weights::drawn(r, "language_model.model.norm.weight"@)
}

/// Layer `i` of a checkpoint.
#[verifier::opaque]
pub open spec fn layer_of<A>(
    m: Map<Seq<char>, Tensor<A>>,
    cfg: ModelConfig,
    i: nat,
) -> Gemma4Layer<A> {
    let bits = cfg.quantization.unwrap().bits as i32;
    let group_size = cfg.quantization.unwrap().group_size as i32;
    let eps = cfg.rms_norm_eps;
    let p = layer_prefix(i);
    let has_kv = i < first_shared(cfg);
    Gemma4Layer {
        layer_type: types_of(cfg)[i as int],
        has_kv,
        previous_kv: kv_donor(types_of(cfg), first_shared(cfg), i as int).unwrap() as usize,
        head_dim: head_dim_of(cfg, types_of(cfg)[i as int]),
        kv_heads: cfg.kv_heads_spec() as i32,
        input_norm: weights::norm_of(m, p + ".input_layernorm.weight"@, eps),
        q_proj: weights::quantized_of(m, p + ".self_attn.q_proj"@, bits, group_size),
        k_proj: if has_kv {
            Some(weights::quantized_of(m, p + ".self_attn.k_proj"@, bits, group_size))
        } else {
            None
        },
        v_proj: if has_kv {
            Some(weights::quantized_of(m, p + ".self_attn.v_proj"@, bits, group_size))
        } else {
            None
        },
        q_norm: weights::norm_of(m, p + ".self_attn.q_norm.weight"@, eps),
        k_norm: if has_kv {
            Some(weights::norm_of(m, p + ".self_attn.k_norm.weight"@, eps))
        } else {
            None
        },
        v_norm_eps: eps,
        o_proj: weights::quantized_of(m, p + ".self_attn.o_proj"@, bits, group_size),
        post_attn_norm: weights::norm_of(m, p + ".post_attention_layernorm.weight"@, eps),
        pre_ffn_norm: weights::norm_of(m, p + ".pre_feedforward_layernorm.weight"@, eps),
        post_ffn_norm: weights::norm_of(m, p + ".post_feedforward_layernorm.weight"@, eps),
        gate_proj: weights::quantized_of(m, p + ".mlp.gate_proj"@, bits, group_size),
        up_proj: weights::quantized_of(m, p + ".mlp.up_proj"@, bits, group_size),
        down_proj: weights::quantized_of(m, p + ".mlp.down_proj"@, bits, group_size),
        per_layer_input_gate: weights::quantized_of(
            m,
            p + ".per_layer_input_gate"@,
            bits,
            group_size,
        ),
        per_layer_projection: weights::quantized_of(
            m,
            p + ".per_layer_projection"@,
            bits,
            group_size,
        ),
        post_per_layer_input_norm: weights::norm_of(
            m,
            p + ".post_per_layer_input_norm.weight"@,
            eps,
        ),
        layer_scalar: m[p + ".layer_scalar"@].data,
    }
}

/// Whether `model` is what a checkpoint with the tensors `m` holds.
pub open spec fn is_model_of<A>(
    model: Gemma4<A>,
    m: Map<Seq<char>, Tensor<A>>,
    cfg: ModelConfig,
) -> bool {
    let bits = cfg.quantization.unwrap().bits as i32;
    let group_size = cfg.quantization.unwrap().group_size as i32;
    let eps = cfg.rms_norm_eps;
    &&& model.cfg == cfg
    &&& model.embed == weights::quantized_of(
        m,
        "language_model.model.embed_tokens"@,
        bits,
        group_size,
    )
    &&& model.embed_per_layer == weights::quantized_of(
        m,
        "language_model.model.embed_tokens_per_layer"@,
        bits,
        group_size,
    )
    &&& model.per_layer_model_projection == weights::quantized_of(
        m,
        "language_model.model.per_layer_model_projection"@,
        bits,
        group_size,
    )
    &&& model.per_layer_projection_norm == weights::norm_of(
        m,
        "language_model.model.per_layer_projection_norm.weight"@,
        eps,
    )
    &&& model.layers@.len() == cfg.num_hidden_layers
    &&& forall|i: int|
        0 <= i < model.layers@.len() ==> #[trigger] model.layers@[i] == layer_of(
            m,
            cfg,
            i as nat,
        )
    &&& model.norm == weights::norm_of(m, "language_model.model.norm.weight"@, eps)
    &&& Some(model.hidden_per_layer) == cfg.hidden_size_per_layer_input
    &&& model.full_head_dim == full_head_dim(cfg)
    &&& model.sliding_window == match cfg.sliding_window {
        Some(n) => n as i32,
        None => 512i32,
    }
}

fn load_layer<A>(
    map: &mut TensorMap<A>,
    cfg: &ModelConfig,
    i: usize,
    types: &Vec<LayerType>,
    previous: &Vec<usize>,
    first_kv_shared: usize,
    bits: i32,
    group_size: i32,
    all: Ghost<Map<Seq<char>, Tensor<A>>>,
) -> (r: Result<Gemma4Layer<A>, Error>)
    requires
        old(map)@.submap_of(all@),
        cfg.num_attention_heads != 0,
        cfg.quantization is Some,
        bits == cfg.quantization.unwrap().bits as i32,
        group_size == cfg.quantization.unwrap().group_size as i32,
        types@ == types_of(*cfg),
        previous@.len() == types@.len(),
        i < types@.len(),
        first_kv_shared == first_shared(*cfg),
        kv_donor(types@, first_shared(*cfg), i as int) == Some(previous@[i as int] as nat),
    ensures
        final(map)@.submap_of(all@),
        match r {
            Ok(l) => layer_drawn(weights::left(old(map)@), *cfg, i as nat) == weights::left(
                final(map)@,
            ) && l == layer_of(all@, *cfg, i as nat),
            Err(e) => layer_drawn(weights::left(old(map)@), *cfg, i as nat) == weights::failed::<
                A,
            >(e@),
        },
{
    proof {
        reveal(layer_drawn);
        reveal(layer_of);
    }
    let prefix = concat2("language_model.model.layers.", decimal_text(i as u64).as_str());
    let p = prefix.as_str();
    let eps = cfg.rms_norm_eps;
    let layer_type = types[i];
    let has_kv = i < first_kv_shared;
    let head_dim = match layer_type {
        LayerType::Sliding => cfg.per_head_dim(),
        LayerType::Full => match cfg.global_head_dim {
            Some(n) => n,
            None => cfg.per_head_dim(),
        },
    } as i32;
    let input_norm = rms(map, p, ".input_layernorm.weight", eps, all)?;
    let q_proj = qlin(map, p, ".self_attn.q_proj", bits, group_size, all)?;
    let k_proj = if has_kv {
        Some(qlin(map, p, ".self_attn.k_proj", bits, group_size, all)?)
    } else {
        None
    };
    let v_proj = if has_kv {
        Some(qlin(map, p, ".self_attn.v_proj", bits, group_size, all)?)
    } else {
        None
    };
    let q_norm = rms(map, p, ".self_attn.q_norm.weight", eps, all)?;
    let k_norm = if has_kv {
        Some(rms(map, p, ".self_attn.k_norm.weight", eps, all)?)
    } else {
        None
    };
    let o_proj = qlin(map, p, ".self_attn.o_proj", bits, group_size, all)?;
    let post_attn_norm = rms(map, p, ".post_attention_layernorm.weight", eps, all)?;
    let pre_ffn_norm = rms(map, p, ".pre_feedforward_layernorm.weight", eps, all)?;
    let post_ffn_norm = rms(map, p, ".post_feedforward_layernorm.weight", eps, all)?;
    let gate_proj = qlin(map, p, ".mlp.gate_proj", bits, group_size, all)?;
    let up_proj = qlin(map, p, ".mlp.up_proj", bits, group_size, all)?;
    let down_proj = qlin(map, p, ".mlp.down_proj", bits, group_size, all)?;
    let per_layer_input_gate = qlin(map, p, ".per_layer_input_gate", bits, group_size, all)?;
    let per_layer_projection = qlin(map, p, ".per_layer_projection", bits, group_size, all)?;
    let post_per_layer_input_norm = rms(
        map,
        p,
        ".post_per_layer_input_norm.weight",
        eps,
        all,
    )?;
    let layer_scalar = take(map, concat2(p, ".layer_scalar").as_str(), all)?;
    Ok(
        Gemma4Layer {
            layer_type,
            has_kv,
            previous_kv: previous[i],
            head_dim,
            kv_heads: cfg.kv_heads() as i32,
            input_norm,
            q_proj,
            k_proj,
            v_proj,
            q_norm,
            k_norm,
            v_norm_eps: eps,
            o_proj,
            post_attn_norm,
            pre_ffn_norm,
            post_ffn_norm,
            gate_proj,
            up_proj,
            down_proj,
            per_layer_input_gate,
            per_layer_projection,
            post_per_layer_input_norm,
            layer_scalar: layer_scalar.data,
        },
    )
}

/// Checks that a configuration is one that the model supports.
pub fn check_supported(cfg: &ModelConfig) -> (r: Result<(), Error>)
    ensures
        match r {
            Ok(()) => unsupported(*cfg) is None,
            Err(e) => unsupported(*cfg) == Some(e@),
        },
{
    if cfg.enable_moe_block {
        return Err(
            Error::ModelLoad(
                "Gemma4 MoE/A4B checkpoints are not supported yet; use dense E2B/E4B Gemma4 or LM Studio for this model".to_owned(),
            ),
        );
    }
    if cfg.attention_k_eq_v {
        return Err(
            Error::ModelLoad("Gemma4 K-eq-V attention is not supported yet".to_owned()),
        );
    }
    let width: usize = match cfg.hidden_size_per_layer_input {
        Some(n) => n,
        None => 0,
    };
    if width == 0 {
        return Err(
            Error::ModelLoad(
                "Gemma4 checkpoint has no per-layer input embeddings; this loader currently supports dense E2B/E4B only".to_owned(),
            ),
        );
    }
    Ok(())
}

impl<A> Gemma4<A> {
    /// Builds the model from the tensors of a checkpoint. Tensors that it does
    /// not need are dropped.
    pub fn load(tensors: TensorMap<A>, cfg: ModelConfig) -> (r: Result<Self, Error>)
        requires
            cfg.num_attention_heads != 0,
        ensures
            match r {
                Ok(model) => unsupported(cfg) is None && cfg.quantization is Some && model_drawn(
                    tensors@,
                    cfg,
                ) is Ok && is_model_of(model, tensors@, cfg),
                Err(e) => match unsupported(cfg) {
                    Some(x) => e@ == x,
                    None => if cfg.quantization is Some {
                        model_drawn(tensors@, cfg) == weights::failed::<A>(e@)
                    } else {
                        e@ == ErrorView::ModelLoad("only quantized Gemma4 models supported"@)
                    },
                },
            },
    {
        check_supported(&cfg)?;
        let all: Ghost<Map<Seq<char>, Tensor<A>>> = Ghost(tensors@);
        let mut rest = tensors;
        let q = match cfg.quantization {
            Some(q) => q,
            None => {
                return Err(Error::ModelLoad("only quantized Gemma4 models supported".to_owned()));
            },
        };
        let bits = q.bits as i32;
        let group_size = q.group_size as i32;
        let eps = cfg.rms_norm_eps;
        let n = cfg.num_hidden_layers;
        let ghost head = head_drawn(all@, cfg);
        let first_kv_shared = match cfg.num_kv_shared_layers {
            Some(shared) => if shared <= n {
                n - shared
            } else {
                0
            },
            None => n,
        };

        let start = match load_head(&mut rest, &cfg, bits, group_size, all) {
            Ok(start) => start,
            Err(e) => {
                proof {
                    lemma_nothing_behind_a_failure::<A>(cfg, e@);
                    weights::lemma_failure_stays(head, one_layer(cfg), 0, n as nat, e@);
                }
                return Err(e);
            },
        };
        let (embed, embed_per_layer, per_layer_model_projection, per_layer_projection_norm) = start;
        let types = match layer_types(&cfg) {
            Ok(types) => types,
            Err(e) => {
                proof {
                    lemma_nothing_behind_a_failure::<A>(cfg, e@);
                    weights::lemma_failure_stays(head, one_layer(cfg), 0, n as nat, e@);
                }
                return Err(e);
            },
        };
        let previous = match previous_kvs(&types, first_kv_shared) {
            Ok(previous) => previous,
            Err(e) => {
                proof {
                    lemma_nothing_behind_a_failure::<A>(cfg, e@);
                    weights::lemma_failure_stays(head, one_layer(cfg), 0, n as nat, e@);
                }
                return Err(e);
            },
        };
        proof {
            assert forall|i: int| 0 <= i < types@.len() implies (#[trigger] kv_donor(
                types@,
                first_shared(cfg),
                i,
            )) is Some by {
                let _ = previous@[i];
            }
            assert(sharing_defect(cfg) is None);
        }

        let mut layers: Vec<Gemma4Layer<A>> = Vec::new();
        let mut i: usize = 0;
        while i < n
            invariant
                i <= n,
                layers@.len() == i,
                rest@.submap_of(all@),
                all@ == tensors@,
                head == head_drawn(all@, cfg),
                layers_drawn(head, cfg, i as nat) == weights::left(rest@),
                forall|j: int|
                    0 <= j < i ==> #[trigger] layers@[j] == layer_of(all@, cfg, j as nat),
                n == cfg.num_hidden_layers,
                cfg.quantization is Some,
                unsupported(cfg) is None,
                bits == cfg.quantization.unwrap().bits as i32,
                group_size == cfg.quantization.unwrap().group_size as i32,
                cfg.num_attention_heads != 0,
                types@ == types_of(cfg),
                types@.len() == n,
                previous@.len() == n,
                first_kv_shared == first_shared(cfg),
                forall|j: int|
                    0 <= j < previous@.len() ==> kv_donor(types@, first_shared(cfg), j) == Some(
                        (#[trigger] previous@[j]) as nat,
                    ),
            decreases n - i,
        {
            let layer = load_layer(
                &mut rest,
                &cfg,
                i,
                &types,
                &previous,
                first_kv_shared,
                bits,
                group_size,
                all,
            );
            match layer {
                Ok(layer) => layers.push(layer),
                Err(e) => {
                    proof {
                        lemma_nothing_behind_a_failure::<A>(cfg, e@);
                        weights::lemma_failure_stays(
                            head,
                            one_layer(cfg),
                            (i + 1) as nat,
                            n as nat,
                            e@,
                        );
                    }
                    return Err(e);
                },
            }
            i = i + 1;
        }

        proof {
            reveal_strlit("");
            assert("language_model.model.norm.weight"@ + ""@
                =~= "language_model.model.norm.weight"@);
        }
        let norm = rms(&mut rest, "language_model.model.norm.weight", "", eps, all)?;
        let hidden_per_layer = match cfg.hidden_size_per_layer_input {
            Some(w) => w,
            None => 256,
        };
        let full = match cfg.global_head_dim {
            Some(d) => d,
            None => cfg.per_head_dim(),
        };
        let window: usize = match cfg.sliding_window {
            Some(w) => w,
            None => 512,
        };
        Ok(
            Gemma4 {
                embed,
                embed_per_layer,
                per_layer_model_projection,
                per_layer_projection_norm,
                layers,
                norm,
                hidden_per_layer,
                full_head_dim: full,
                sliding_window: window as i32,
                cfg,
            },
        )
    }
}

fn load_head<A>(
    map: &mut TensorMap<A>,
    cfg: &ModelConfig,
    bits: i32,
    group_size: i32,
    all: Ghost<Map<Seq<char>, Tensor<A>>>,
) -> (r: Result<(Quantized<A>, Quantized<A>, Quantized<A>, RmsNorm<A>), Error>)
    requires
        old(map)@ == all@,
    ensures
        final(map)@.submap_of(all@),
        match r {
            Ok(t) => head_drawn(all@, *cfg) == weights::checked(
                weights::checked(weights::left(final(map)@), types_defect(*cfg)),
                sharing_defect(*cfg),
            ) && t.0 == weights::quantized_of(
                all@,
                "language_model.model.embed_tokens"@,
                bits,
                group_size,
            ) && t.1 == weights::quantized_of(
                all@,
                "language_model.model.embed_tokens_per_layer"@,
                bits,
                group_size,
            ) && t.2 == weights::quantized_of(
                all@,
                "language_model.model.per_layer_model_projection"@,
                bits,
                group_size,
            ) && t.3 == weights::norm_of(
                all@,
                "language_model.model.per_layer_projection_norm.weight"@,
                cfg.rms_norm_eps,
            ),
            Err(e) => head_drawn(all@, *cfg) == weights::failed::<A>(e@),
        },
{
    proof {
        reveal_strlit("");
        assert("language_model.model.embed_tokens"@ + ""@
            =~= "language_model.model.embed_tokens"@);
        assert("language_model.model.embed_tokens_per_layer"@ + ""@
            =~= "language_model.model.embed_tokens_per_layer"@);
        assert("language_model.model.per_layer_model_projection"@ + ""@
            =~= "language_model.model.per_layer_model_projection"@);
        assert("language_model.model.per_layer_projection_norm.weight"@ + ""@
            =~= "language_model.model.per_layer_projection_norm.weight"@);
    }
    let embed = qlin(map, "language_model.model.embed_tokens", "", bits, group_size, all)?;
    let embed_per_layer = qlin(
        map,
        "language_model.model.embed_tokens_per_layer",
        "",
        bits,
        group_size,
        all,
    )?;
    let per_layer_model_projection = qlin(
        map,
        "language_model.model.per_layer_model_projection",
        "",
        bits,
        group_size,
        all,
    )?;
    let per_layer_projection_norm = rms(
        map,
        "language_model.model.per_layer_projection_norm.weight",
        "",
        cfg.rms_norm_eps,
        all,
    )?;
    Ok((embed, embed_per_layer, per_layer_model_projection, per_layer_projection_norm))
}

/// Where the keys and values of a layer come from.
#[derive(Debug)]
pub enum KvSource<'a, A> {
    /// The layer's own projections.
    Own { k_proj: &'a Quantized<A>, v_proj: &'a Quantized<A>, k_norm: &'a RmsNorm<A> },
    /// An earlier layer.
    Shared(usize),
}

impl<A> Gemma4Layer<A> {
    /// Why layer `li` has no keys and values, if it has none. Those of a layer
    /// are there once it has run, and the layers run in order.
    pub open spec fn kv_defect(self, li: nat) -> Option<ErrorView> {
        if self.has_kv {
            if self.k_proj is None {
                Some(ErrorView::Inference("missing Gemma4 k_proj"@))
            } else if self.v_proj is None {
                Some(ErrorView::Inference("missing Gemma4 v_proj"@))
            } else if self.k_norm is None {
                Some(ErrorView::Inference("missing Gemma4 k_norm"@))
            } else {
                None
            }
        } else if self.previous_kv >= li {
            Some(
                ErrorView::Inference(
                    "Gemma4 layer "@ + text::decimal(li) + " missing shared kv from "@
                        + text::decimal(self.previous_kv as nat),
                ),
            )
        } else {
            None
        }
    }

    /// Where the keys and values of this layer, the one at `li`, come from.
    pub fn kv_source<'a>(&'a self, li: usize) -> (r: Result<KvSource<'a, A>, Error>)
        ensures
            match r {
                Ok(KvSource::Own { k_proj, v_proj, k_norm }) => self.kv_defect(li as nat) is None
                    && self.has_kv && self.k_proj == Some(*k_proj) && self.v_proj == Some(*v_proj)
                    && self.k_norm == Some(*k_norm),
                Ok(KvSource::Shared(j)) => self.kv_defect(li as nat) is None && !self.has_kv && j
                    == self.previous_kv,
                Err(e) => self.kv_defect(li as nat) == Some(e@),
            },
    {
        if self.has_kv {
            let k_proj = match &self.k_proj {
                Some(p) => p,
                None => {
                    return Err(Error::Inference("missing Gemma4 k_proj".to_owned()));
                },
            };
            let v_proj = match &self.v_proj {
                Some(p) => p,
                None => {
                    return Err(Error::Inference("missing Gemma4 v_proj".to_owned()));
                },
            };
            let k_norm = match &self.k_norm {
                Some(p) => p,
                None => {
                    return Err(Error::Inference("missing Gemma4 k_norm".to_owned()));
                },
            };
            return Ok(KvSource::Own { k_proj, v_proj, k_norm });
        }
        if self.previous_kv >= li {
            let mut m = "Gemma4 layer ".to_owned();
            m.append(decimal_text(li as u64).as_str());
            m.append(" missing shared kv from ");
            m.append(decimal_text(self.previous_kv as u64).as_str());
            return Err(Error::Inference(m));
        }
        Ok(KvSource::Shared(self.previous_kv))
    }
}

/// Every layer of a loaded model has keys and values: its own, or those of an
/// earlier layer that looks back equally far and has its own.
pub proof fn law_loaded_layers_have_keys_and_values<A>(
    model: Gemma4<A>,
    m: Map<Seq<char>, Tensor<A>>,
    cfg: ModelConfig,
    i: int,
)
    requires
        model_drawn(m, cfg) is Ok,
        is_model_of(model, m, cfg),
        0 <= i < model.layers@.len(),
    ensures
        model.layers@[i].kv_defect(i as nat) is None,
        !model.layers@[i].has_kv ==> model.layers@[i].previous_kv < i
            && model.layers@[model.layers@[i].previous_kv as int].has_kv
            && model.layers@[model.layers@[i].previous_kv as int].layer_type
            == model.layers@[i].layer_type,
        !model.layers@[i].has_kv ==> model.layers@[i].k_proj is None
            && model.layers@[i].v_proj is None,
{
    reveal(layer_of);
    let n = cfg.num_hidden_layers as nat;
    let types = types_of(cfg);
    let first = first_shared(cfg);
    lemma_success_was_never_lost(head_drawn(m, cfg), cfg, n);
    assert(types_defect(cfg) is None && sharing_defect(cfg) is None);
    assert(types.len() == n);
    assert(kv_donor(types, first, i) is Some);
    assert(model.layers@[i] == layer_of(m, cfg, i as nat));
    if i >= first {
        law_shared_layers_use_an_earlier_layer_of_their_type(types, first, i);
        let j = kv_donor(types, first, i).unwrap();
        assert(j < n <= usize::MAX);
        assert(model.layers@[j as int] == layer_of(m, cfg, j));
    }
}

proof fn lemma_success_was_never_lost<A>(r: Draw<A>, cfg: ModelConfig, n: nat)
    requires
        layers_drawn(r, cfg, n) is Ok,
    ensures
        r is Ok,
    decreases n,
{
    reveal(layer_drawn);
    if n > 0 {
        lemma_success_was_never_lost(r, cfg, (n - 1) as nat);
    }
}

/// The shapes and the masks of a forward pass.
#[derive(Debug)]
pub struct ForwardPlan {
    pub span: Span,
    pub token_ids: Vec<i32>,
    /// The mask of the layers with full attention; none where it hides nothing.
    pub full_mask: Option<Vec<Vec<bool>>>,
    /// The mask of the layers with sliding attention.
    pub sliding_mask: Option<Vec<Vec<bool>>>,
    /// The shape of the inputs that each layer has for itself.
    pub per_layer_shape: [i32; 3],
    /// The row of the logits that predicts the next token.
    pub last_row: i32,
}

/// Whether `mask` is the mask for `seq_len` tokens behind `offset` cached ones,
/// or is left out rightly.
pub open spec fn masks_rightly(
    mask: Option<Vec<Vec<bool>>>,
    seq_len: int,
    offset: int,
    window: Option<i32>,
) -> bool {
    match mask {
        Some(rows) => !masks::unmasked(seq_len, offset, window) && masks::is_mask(
            rows@,
            seq_len,
            offset,
            window,
        ),
        None => masks::unmasked(seq_len, offset, window),
    }
}

impl ForwardPlan {
    /// Whether this is the plan for `tokens` behind `offset` cached ones.
    pub open spec fn is_plan<A>(self, model: Gemma4<A>, tokens: Seq<u32>, offset: int) -> bool {
        &&& self.span.well_formed()
        &&& self.span.seq_len == tokens.len()
        &&& self.span.offset == offset
        &&& self.token_ids@ == tokens.map_values(|t: u32| t as i32)
        &&& masks_rightly(self.full_mask, tokens.len() as int, offset, None)
        &&& masks_rightly(
            self.sliding_mask,
            tokens.len() as int,
            offset,
            Some(model.sliding_window),
        )
        &&& self.per_layer_shape@ == seq![
            tokens.len() as i32,
            model.cfg.num_hidden_layers as i32,
            model.hidden_per_layer as i32,
        ]
        &&& self.last_row == tokens.len() - 1
    }
}

impl<A> Gemma4<A> {
    /// Plans a forward pass over new tokens behind `cached` ones.
    pub fn plan_forward(&self, tokens: &[u32], cached: usize) -> (r: Result<ForwardPlan, Error>)
        requires
            tokens@.len() + cached <= i32::MAX,
        ensures
            match r {
                Ok(p) => tokens@.len() + cached <= cache::KV_PREALLOC && p.is_plan(
                    *self,
                    tokens@,
                    cached as int,
                ),
                Err(e) => tokens@.len() + cached > cache::KV_PREALLOC && e@ == cache::exhausted(
                    tokens@.len() + cached,
                ),
            },
    {
        let span = place_tokens(tokens.len(), cached)?;
        let per_layer_shape = [
            span.seq_len,
            self.cfg.num_hidden_layers as i32,
            self.hidden_per_layer as i32,
        ];
        assert(per_layer_shape@ =~= seq![
            tokens@.len() as i32,
            self.cfg.num_hidden_layers as i32,
            self.hidden_per_layer as i32,
        ]);
        Ok(
            ForwardPlan {
                span,
                token_ids: token_ids(tokens),
                full_mask: attention_mask(span.seq_len, span.offset, None),
                sliding_mask: attention_mask(span.seq_len, span.offset, Some(self.sliding_window)),
                per_layer_shape,
                last_row: span.seq_len - 1,
            },
        )
    }
}

/// The member `key` of the rope parameters of a kind of attention.
pub open spec fn rope_parameter(cfg: ModelConfig, group: Seq<char>, key: Seq<char>) -> Option<
    json::JsonModel,
> {
    match cfg.rope_parameters {
        Some(v) => match json::json_model(v).member(group) {
            Some(g) => g.member(key),
            None => None,
        },
        None => None,
    }
}

/// The member `key` of the rope parameters of a kind of attention.
pub fn rope_value<'a>(cfg: &'a ModelConfig, group: &str, key: &str) -> (r: Option<
    &'a serde_json::Value,
>)
    ensures
        json::json_ref_model(r) == rope_parameter(*cfg, group@, key@),
{
    match &cfg.rope_parameters {
        Some(v) => match json::value_get(v, group) {
            Some(g) => json::value_get(g, key),
            None => None,
        },
        None => None,
    }
}

/// Which Gemma 4 checkpoints are supported: dense ones that keep values beside keys and
/// have an input for each layer.
pub proof fn law_which_checkpoints_are_supported(cfg: ModelConfig)
    ensures
        unsupported(cfg) is None <==> !cfg.enable_moe_block && !cfg.attention_k_eq_v && (
        cfg.hidden_size_per_layer_input matches Some(n) && n > 0),
{
}

/// A layer of a loaded model that shares keys and values uses those of the last layer of
/// its type among the ones that have their own: these are all but the last
/// `num_kv_shared_layers`.
pub proof fn law_loaded_layers_share_with_the_nearest<A>(
    model: Gemma4<A>,
    m: Map<Seq<char>, Tensor<A>>,
    cfg: ModelConfig,
    i: int,
    k: int,
)
    requires
        model_drawn(m, cfg) is Ok,
        is_model_of(model, m, cfg),
        0 <= i < model.layers@.len(),
        !model.layers@[i].has_kv,
    ensures
        ({
            let j = model.layers@[i].previous_kv as int;
            let first = cfg.num_hidden_layers - (match cfg.num_kv_shared_layers {
                Some(n) => n as int,
                None => 0int,
            });
            &&& first <= i
            &&& j < first
            &&& model.layers@[j].layer_type == model.layers@[i].layer_type
            &&& j < k < first ==> model.layers@[k].layer_type != model.layers@[i].layer_type
        }),
{
    reveal(layer_of);
    law_loaded_layers_have_keys_and_values(model, m, cfg, i);
    let n = cfg.num_hidden_layers as nat;
    let types = types_of(cfg);
    let first = first_shared(cfg);
    lemma_success_was_never_lost(head_drawn(m, cfg), cfg, n);
    assert(types_defect(cfg) is None && sharing_defect(cfg) is None);
    assert(types.len() == n);
    assert(kv_donor(types, first, i) is Some);
    assert(model.layers@[i] == layer_of(m, cfg, i as nat));
    law_shared_layers_use_an_earlier_layer_of_their_type(types, first, i);
    let j = kv_donor(types, first, i).unwrap();
    assert(j < n <= usize::MAX);
    assert(model.layers@[j as int] == layer_of(m, cfg, j));
    if j < k < first {
        law_shared_layers_use_the_nearest(types, first, i, k);
        assert(model.layers@[k] == layer_of(m, cfg, k as nat));
    }
}

/// A rope parameter is the member of that name in the group of that kind of attention, and
/// there is none where the group, or the member, is missing.
pub proof fn law_where_rope_parameters_stand(
    cfg: ModelConfig,
    group: Seq<char>,
    key: Seq<char>,
    groups: Map<Seq<char>, json::JsonModel>,
    members: Map<Seq<char>, json::JsonModel>,
)
    ensures
        cfg.rope_parameters is None ==> rope_parameter(cfg, group, key) is None,
        cfg.rope_parameters matches Some(v) ==> json::json_model(v) == json::JsonModel::Object(
            groups,
        ) ==> {
            &&& !groups.contains_key(group) ==> rope_parameter(cfg, group, key) is None
            &&& groups.contains_key(group) && groups[group] == json::JsonModel::Object(members) ==> {
                &&& members.contains_key(key) ==> rope_parameter(cfg, group, key) == Some(
                    members[key],
                )
                &&& !members.contains_key(key) ==> rope_parameter(cfg, group, key) is None
            }
        },
{
}

} // verus!
