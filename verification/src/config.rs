//! The hyperparameters of a checkpoint, from its `config.json`.

use vstd::prelude::*;

use crate::error::{Error, ErrorView};
use crate::float_bits::F32;
use crate::json;
use crate::json::JsonModel;
use crate::text;
use crate::text::{decimal_text, same};

verus! {

/// How the weights of a checkpoint are quantized.
#[derive(Debug, Clone, Copy, PartialEq, Eq, Structural)]
pub struct QuantConfig {
    pub bits: u32,
    pub group_size: u32,
}

/// The hyperparameters that the forward passes need.
#[derive(Debug, Clone)]
pub struct ModelConfig {
    /// The architecture (such as "qwen3").
    pub model_type: String,
    pub hidden_size: usize,
    pub intermediate_size: usize,
    pub num_hidden_layers: usize,
    pub num_attention_heads: usize,
    /// Fewer than the attention heads under grouped-query attention; where
    /// absent, one for each of them.
    pub num_key_value_heads: Option<usize>,
    /// Where absent, `hidden_size / num_attention_heads`.
    pub head_dim: Option<usize>,
    pub vocab_size: usize,
    pub bos_token_id: Option<u32>,
    pub eos_token_id: Vec<u32>,
    pub pad_token_id: Option<u32>,
    pub rms_norm_eps: F32,
    pub rope_theta: F32,
    pub max_position_embeddings: usize,
    /// Whether the LM head is the embedding matrix.
    pub tie_word_embeddings: bool,
    /// Present where the weights are quantized. A checkpoint may give it twice,
    /// under two names.
    pub quantization: Option<QuantConfig>,
    pub quantization_alt: Option<QuantConfig>,
    pub layer_types: Vec<String>,
    pub rope_parameters: Option<serde_json::Value>,
    pub global_head_dim: Option<usize>,
    pub sliding_window: Option<usize>,
    pub num_kv_shared_layers: Option<usize>,
    pub hidden_size_per_layer_input: Option<usize>,
    pub vocab_size_per_layer_input: Option<usize>,
    pub final_logit_softcapping: Option<F32>,
    pub use_double_wide_mlp: bool,
    pub enable_moe_block: bool,
    pub attention_k_eq_v: bool,
    pub num_global_key_value_heads: Option<usize>,
    pub attention_bias: bool,
    pub embedding_multiplier: F32,
    pub attention_multiplier: F32,
    pub logits_scaling: F32,
    pub residual_multiplier: F32,
    pub shared_intermediate_size: Option<usize>,
    pub num_local_experts: Option<usize>,
    pub num_experts_per_tok: Option<usize>,
    pub mamba_n_heads: Option<usize>,
    pub mamba_d_head: Option<usize>,
    pub mamba_d_state: Option<usize>,
    pub mamba_d_conv: Option<usize>,
    pub mamba_n_groups: Option<usize>,
    pub mamba_conv_bias: bool,
    pub mamba_proj_bias: bool,
    pub position_embedding_type: String,
}

/// `1e-6`, where a checkpoint gives no `rms_norm_eps`.
pub fn default_rms_eps() -> (r: F32)
    ensures
        r.bits == 0x3586_37bd,
{
    F32 { bits: 0x3586_37bd }
}

/// `10000`, where a checkpoint gives no `rope_theta`.
pub fn default_rope_theta() -> (r: F32)
    ensures
        r.bits == 0x461c_4000,
{
    F32 { bits: 0x461c_4000 }
}

/// `1`, for the multipliers that a checkpoint does not give.
pub fn default_one() -> (r: F32)
    ensures
        r.bits == 0x3f80_0000,
{
    F32 { bits: 0x3f80_0000 }
}

/// The context length of a checkpoint that gives none.
pub fn default_max_pos() -> (r: usize)
    ensures
        r == 4096,
{
    4096
}

/// The position embedding of a checkpoint that names none.
pub fn default_position_embedding_type() -> (r: String)
    ensures
        r@ == "rope"@,
{
    "rope".to_owned()
}

/// The end-of-reply tokens as a checkpoint writes them: one number, or a list.
#[derive(Debug, Clone)]
pub enum TokenIds {
    One(u32),
    Many(Vec<u32>),
}

/// The end-of-reply tokens as a list; none where the checkpoint gives none.
pub fn token_ids(ids: Option<TokenIds>) -> (r: Vec<u32>)
    ensures
        r@ == (match ids {
            Some(TokenIds::One(id)) => seq![id],
            Some(TokenIds::Many(ids)) => ids@,
            None => Seq::<u32>::empty(),
        }),
{
    match ids {
        Some(TokenIds::One(id)) => vec![id],
        Some(TokenIds::Many(ids)) => ids,
        None => Vec::new(),
    }
}

impl ModelConfig {
    /// What is wrong with the configuration, if anything.
    pub open spec fn defect(self) -> Option<ErrorView> {
        if self.hidden_size == 0 || self.num_attention_heads == 0 {
            Some(
                ErrorView::InvalidConfig(
                    "hidden_size and num_attention_heads must be non-zero"@,
                ),
            )
        } else if self.hidden_size % self.num_attention_heads != 0 && self.head_dim is None {
            Some(
                ErrorView::InvalidConfig(
                    "hidden_size ("@ + text::decimal(self.hidden_size as nat)
                        + ") not divisible by num_attention_heads ("@ + text::decimal(
                        self.num_attention_heads as nat,
                    ) + ") and no explicit head_dim"@,
                ),
            )
        } else {
            None
        }
    }

    /// Checks the configuration.
    pub fn validate(&self) -> (r: Result<(), Error>)
        ensures
            match r {
                Ok(()) => self.defect() is None,
                Err(e) => self.defect() == Some(e@),
            },
    {
        if self.hidden_size == 0 || self.num_attention_heads == 0 {
            return Err(
                Error::InvalidConfig(
                    "hidden_size and num_attention_heads must be non-zero".to_owned(),
                ),
            );
        }
        if self.hidden_size % self.num_attention_heads != 0 && self.head_dim.is_none() {
            let mut m = "hidden_size (".to_owned();
            m.append(decimal_text(self.hidden_size as u64).as_str());
            m.append(") not divisible by num_attention_heads (");
            m.append(decimal_text(self.num_attention_heads as u64).as_str());
            m.append(") and no explicit head_dim");
            return Err(Error::InvalidConfig(m));
        }
        Ok(())
    }

    /// The quantization of the weights, under either of its names; the first
    /// wins.
    pub open spec fn merged_quantization(self) -> Option<QuantConfig> {
        if self.quantization is Some {
            self.quantization
        } else {
            self.quantization_alt
        }
    }

    /// The configuration with its quantization under one name.
    pub open spec fn merged(self) -> ModelConfig {
        ModelConfig {
            quantization: self.merged_quantization(),
            quantization_alt: None,
            ..self
        }
    }

    /// Merges the two names of the quantization, and checks the result.
    pub fn completed(self) -> (r: Result<ModelConfig, Error>)
        ensures
            match r {
                Ok(c) => c == self.merged() && c.defect() is None,
                Err(e) => self.merged().defect() == Some(e@),
            },
    {
        let mut cfg = self;
        if cfg.quantization.is_none() {
            cfg.quantization = cfg.quantization_alt;
        }
        cfg.quantization_alt = None;
        match cfg.validate() {
            Ok(()) => Ok(cfg),
            Err(e) => Err(e),
        }
    }

    /// The key/value heads: as many as attention heads, where not given.
    pub open spec fn kv_heads_spec(self) -> usize {
        match self.num_key_value_heads {
            Some(n) => n,
            None => self.num_attention_heads,
        }
    }

    /// The width of a head.
    pub open spec fn per_head_dim_spec(self) -> usize {
        match self.head_dim {
            Some(n) => n,
            None => self.hidden_size / self.num_attention_heads,
        }
    }

    /// The key/value heads: as many as attention heads, where not given.
    pub fn kv_heads(&self) -> (r: usize)
        ensures
            r == self.kv_heads_spec(),
    {
        match self.num_key_value_heads {
            Some(n) => n,
            None => self.num_attention_heads,
        }
    }

    /// The width of a head.
    pub fn per_head_dim(&self) -> (r: usize)
        requires
            self.num_attention_heads != 0,
        ensures
            r == self.per_head_dim_spec(),
    {
        match self.head_dim {
            Some(n) => n,
            None => self.hidden_size / self.num_attention_heads,
        }
    }

    /// The width of the query projection: `num_attention_heads * head_dim`.
    pub fn q_dim(&self) -> (r: usize)
        requires
            self.num_attention_heads != 0,
            self.num_attention_heads * self.per_head_dim_spec() <= usize::MAX,
        ensures
            r == self.num_attention_heads * self.per_head_dim_spec(),
    {
        self.num_attention_heads * self.per_head_dim()
    }

    /// The width of the key and value projections: `kv_heads * head_dim`.
    pub fn kv_dim(&self) -> (r: usize)
        requires
            self.num_attention_heads != 0,
            self.kv_heads_spec() * self.per_head_dim_spec() <= usize::MAX,
        ensures
            r == self.kv_heads_spec() * self.per_head_dim_spec(),
    {
        self.kv_heads() * self.per_head_dim()
    }
}

/// `text` with the member `key` of `root`, where `root` has one.
pub open spec fn with_field(
    root: JsonModel,
    text: Map<Seq<char>, JsonModel>,
    key: Seq<char>,
) -> Map<Seq<char>, JsonModel> {
    match root.member(key) {
        Some(v) => text.insert(key, v),
        None => text,
    }
}

/// The configuration of the text tower of a Gemma 4 checkpoint: its
/// `text_config`, with the quantization and the end-of-reply tokens that stand
/// beside it.
pub open spec fn gemma4_text(root: JsonModel) -> JsonModel {
    let own = match root.member("text_config"@) {
        Some(JsonModel::Object(m)) => m,
        _ => json::no_members(),
    };
    let named = own.insert("model_type"@, JsonModel::Str("gemma4"@));
    let with_quantization = with_field(root, named, "quantization"@);
    let with_alt = with_field(root, with_quantization, "quantization_config"@);
    JsonModel::Object(with_field(root, with_alt, "eos_token_id"@))
}

/// What the hyperparameters are read from, in a parsed `config.json`.
pub open spec fn hyperparameters(root: JsonModel) -> JsonModel {
    if root.member_text("model_type"@) == Some("gemma4"@) {
        gemma4_text(root)
    } else {
        root
    }
}

/// Copies the member `key` of `root` into `text`, where `root` has one.
pub fn copy_field(
    root: &serde_json::Value,
    text: &mut serde_json::Map<String, serde_json::Value>,
    key: &str,
)
    ensures
        json::json_members(*final(text)) == with_field(
            json::json_model(*root),
            json::json_members(*old(text)),
            key@,
        ),
{
    match json::value_get(root, key) {
        Some(v) => json::put(text, key, v.clone()),
        None => {},
    }
}

/// The configuration of the text tower of a Gemma 4 checkpoint.
pub fn gemma4_text_config(root: &serde_json::Value) -> (r: serde_json::Value)
    ensures
        json::json_model(r) == gemma4_text(json::json_model(*root)),
{
    let mut text = match json::value_get(root, "text_config") {
        Some(v) => match json::value_as_object(v) {
            Some(m) => json::map_clone(m),
            None => json::map_new(),
        },
        None => json::map_new(),
    };
    json::put_text(&mut text, "model_type", "gemma4");
    copy_field(root, &mut text, "quantization");
    copy_field(root, &mut text, "quantization_config");
    copy_field(root, &mut text, "eos_token_id");
    json::value_object(text)
}

/// What the hyperparameters are read from, in a parsed `config.json`.
pub fn config_value(root: serde_json::Value) -> (r: serde_json::Value)
    ensures
        json::json_model(r) == hyperparameters(json::json_model(root)),
{
    let gemma = match json::member_str(&root, "model_type") {
        Some(t) => same(t, "gemma4"),
        None => false,
    };
    if gemma {
        gemma4_text_config(&root)
    } else {
        root
    }
}

/// Reads a `config.json` up to the value that holds the hyperparameters.
pub fn parse_config(raw: &str) -> (r: Result<serde_json::Value, Error>)
    ensures
        match json::json_parsed(raw@) {
            Ok(root) => r matches Ok(v) && json::json_model(v) == hyperparameters(root),
            Err(m) => r matches Err(e) && e@ == ErrorView::Serde(m),
        },
{
    match json::value_parse(raw) {
        Ok(v) => Ok(config_value(v)),
        Err(m) => Err(Error::Serde(m)),
    }
}

/// The text tower of a Gemma 4 checkpoint is read from its `text_config`; but the
/// quantization and the end-of-reply tokens are those beside it, where there are any, and
/// the model type is that of the checkpoint. Other checkpoints are read as they are.
pub proof fn law_where_hyperparameters_stand(root: JsonModel, key: Seq<char>)
    ensures
        root.member_text("model_type"@) != Some("gemma4"@) ==> hyperparameters(root) == root,
        root.member_text("model_type"@) == Some("gemma4"@) ==> ({
            let got = hyperparameters(root).member(key);
            let beside = key == "quantization"@ || key == "quantization_config"@ || key
                == "eos_token_id"@;
            let own = match root.member("text_config"@) {
                Some(t) => t.member(key),
                None => None,
            };
            if key == "model_type"@ {
                got == Some(JsonModel::Str("gemma4"@))
            } else if beside && root.member(key) is Some {
                got == root.member(key)
            } else {
                got == own
            }
        }),
{
    reveal_strlit("model_type");
    reveal_strlit("quantization");
    reveal_strlit("quantization_config");
    reveal_strlit("eos_token_id");
    assert("model_type"@.len() == 10 && "quantization"@.len() == 12 && "quantization_config"@.len()
        == 19 && "eos_token_id"@.len() == 12);
    assert("quantization"@[0] == 'q' && "eos_token_id"@[0] == 'e');
}

/// A configuration without a defect has heads, and a width for them: the one that it
/// gives, or one by which the heads share the residual stream with nothing left over. One
/// that has all that has no defect.
pub proof fn law_sound_configurations(cfg: ModelConfig)
    ensures
        cfg.defect() is None <==> {
            &&& cfg.hidden_size > 0
            &&& cfg.num_attention_heads > 0
            &&& cfg.head_dim is Some || exists|dim: int| #[trigger]
                (dim * cfg.num_attention_heads) == cfg.hidden_size
        },
        cfg.defect() is None && cfg.head_dim is None ==> cfg.per_head_dim_spec()
            * cfg.num_attention_heads == cfg.hidden_size,
        cfg.head_dim matches Some(n) ==> cfg.per_head_dim_spec() == n,
        cfg.num_key_value_heads matches Some(n) ==> cfg.kv_heads_spec() == n,
        cfg.num_key_value_heads is None ==> cfg.kv_heads_spec() == cfg.num_attention_heads,
{
    let h = cfg.hidden_size as int;
    let n = cfg.num_attention_heads as int;
    if n > 0 {
        vstd::arithmetic::div_mod::lemma_fundamental_div_mod(h, n);
        if h % n == 0 {
            assert((h / n) * n == h) by (nonlinear_arith)
                requires
                    h == n * (h / n) + h % n,
                    h % n == 0,
            ;
        }
        if exists|dim: int| #[trigger] (dim * n) == h {
            let dim = choose|dim: int| #[trigger] (dim * n) == h;
            vstd::arithmetic::div_mod::lemma_mod_multiples_basic(dim, n);
        }
    }
}

/// A completed configuration differs from the one that was read in its quantization alone:
/// that is the one under the first name, and where there is none the one under the second.
pub proof fn law_quantization_has_one_name(cfg: ModelConfig)
    ensures
        cfg.quantization matches Some(q) ==> cfg.merged().quantization == Some(q),
        cfg.quantization is None ==> cfg.merged().quantization == cfg.quantization_alt,
        cfg.merged() == (ModelConfig {
            quantization: cfg.merged().quantization,
            quantization_alt: None,
            ..cfg
        }),
{
}

} // verus!
