//! The supported architectures behind one face.

use vstd::prelude::*;

use crate::attention;
use crate::cache;
use crate::cache::Span;
use crate::config::ModelConfig;
use crate::error::{Error, ErrorView};
use crate::float_bits::F32;
use crate::gemma;
use crate::gemma::Gemma4;
use crate::gemma_forward;
use crate::granite;
use crate::granite::{Granite, TokenByToken};
use crate::granite_forward;
use crate::graph::{Graph, Term};
use crate::masks;
use crate::qwen3;
use crate::qwen3::Qwen3;
use crate::qwen3_forward;
use crate::tensors::{Tensor, TensorMap};
use crate::text::{concat2, same};
use crate::weights;
use crate::weights::Quantized;

verus! {

/// The supported architectures.
#[derive(Debug, Clone, Copy, PartialEq, Eq, Structural)]
pub enum Family {
    Qwen3,
    Gemma4,
    Granite,
}

/// A loaded model.
#[derive(Debug)]
pub enum Architecture<A> {
    Qwen3(Qwen3<A>),
    Gemma4(Gemma4<A>),
    Granite(Granite<A>),
}

/// What a model keeps of past tokens.
#[derive(Debug)]
pub enum ArchitectureCache<A> {
    Qwen3(cache::KvCache<A>),
    Gemma4(cache::KvCache<A>),
    Granite(granite::KvCache<A>),
}

/// The architecture that a `model_type` names.
pub open spec fn family_of(model_type: Seq<char>) -> Option<Family> {
    if model_type == "qwen3"@ {
        Some(Family::Qwen3)
    } else if model_type == "gemma4"@ {
        Some(Family::Gemma4)
    } else if model_type == "granitemoehybrid"@ {
        Some(Family::Granite)
    } else {
        None
    }
}

/// Why a configuration is not supported, if it is not.
pub open spec fn unsupported(cfg: ModelConfig) -> Option<ErrorView> {
    match family_of(cfg.model_type@) {
        Some(Family::Qwen3) => None,
        Some(Family::Gemma4) => gemma::unsupported(cfg),
        Some(Family::Granite) => granite::unsupported(cfg),
        None => Some(ErrorView::ModelLoad("unsupported model_type: "@ + cfg.model_type@)),
    }
}

/// The architecture of a configuration, if that is supported. Asked before any
/// weights are read.
pub fn check_supported(cfg: &ModelConfig) -> (r: Result<Family, Error>)
    ensures
        match r {
            Ok(f) => unsupported(*cfg) is None && family_of(cfg.model_type@) == Some(f),
            Err(e) => unsupported(*cfg) == Some(e@),
        },
{
    let t = cfg.model_type.as_str();
    if same(t, "qwen3") {
        Ok(Family::Qwen3)
    } else if same(t, "gemma4") {
        gemma::check_supported(cfg)?;
        Ok(Family::Gemma4)
    } else if same(t, "granitemoehybrid") {
        granite::check_supported(cfg)?;
        Ok(Family::Granite)
    } else {
        Err(Error::ModelLoad(concat2("unsupported model_type: ", t)))
    }
}

/// What the names of the tensors begin with that an architecture reads; it
/// passes over the others.
pub open spec fn prefix_of(family: Family) -> Seq<char> {
    match family {
        Family::Gemma4 => "language_model."@,
        _ => ""@,
    }
}

/// What the names of the tensors begin with that an architecture reads.
pub fn tensor_prefix(family: Family) -> (r: &'static str)
    ensures
        r@ == prefix_of(family),
{
    match family {
        Family::Gemma4 => "language_model.",
        _ => "",
    }
}

/// Whether the sizes in a configuration are such that its model can be built.
pub open spec fn sizes_fit(cfg: ModelConfig) -> bool {
    match family_of(cfg.model_type@) {
        Some(Family::Gemma4) => cfg.num_attention_heads != 0,
        Some(Family::Granite) => granite::mamba_fits(cfg),
        _ => true,
    }
}

impl<A> Architecture<A> {
    /// The architecture of the model.
    pub open spec fn family(self) -> Family {
        match self {
            Architecture::Qwen3(_) => Family::Qwen3,
            Architecture::Gemma4(_) => Family::Gemma4,
            Architecture::Granite(_) => Family::Granite,
        }
    }

    /// Builds the model that a configuration names from the tensors of a
    /// checkpoint.
    pub fn load(tensors: TensorMap<A>, cfg: ModelConfig) -> (r: Result<Self, Error>)
        requires
            sizes_fit(cfg),
        ensures
            match r {
                Ok(Architecture::Qwen3(m)) => family_of(cfg.model_type@) == Some(Family::Qwen3)
                    && cfg.quantization is Some && qwen3::model_drawn(
                    tensors@,
                    cfg.num_hidden_layers as nat,
                    cfg.tie_word_embeddings,
                ) == weights::left(Map::<Seq<char>, Tensor<A>>::empty()) && qwen3::is_model_of(
                    m,
                    tensors@,
                    cfg,
                ),
                Ok(Architecture::Gemma4(m)) => family_of(cfg.model_type@) == Some(Family::Gemma4)
                    && unsupported(cfg) is None && cfg.quantization is Some && gemma::model_drawn(
                    tensors@,
                    cfg,
                ) is Ok && gemma::is_model_of(m, tensors@, cfg),
                Ok(Architecture::Granite(m)) => family_of(cfg.model_type@) == Some(Family::Granite)
                    && unsupported(cfg) is None && cfg.quantization is Some && granite::model_drawn(
                    tensors@,
                    cfg,
                ) == weights::left(Map::<Seq<char>, Tensor<A>>::empty()) && granite::is_model_of(
                    m,
                    tensors@,
                    cfg,
                ),
                Err(e) => match unsupported(cfg) {
                    Some(x) => e@ == x,
                    None => match family_of(cfg.model_type@) {
                        Some(Family::Qwen3) => if cfg.quantization is Some {
                            weights::explains(
                                e@,
                                qwen3::model_drawn(
                                    tensors@,
                                    cfg.num_hidden_layers as nat,
                                    cfg.tie_word_embeddings,
                                ),
                            )
                        } else {
                            e@ == ErrorView::ModelLoad("only quantized models supported in v1"@)
                        },
                        Some(Family::Gemma4) => if cfg.quantization is Some {
                            gemma::model_drawn(tensors@, cfg) == weights::failed::<A>(e@)
                        } else {
                            e@ == ErrorView::ModelLoad("only quantized Gemma4 models supported"@)
                        },
                        Some(Family::Granite) => if cfg.quantization is Some {
                            weights::explains(e@, granite::model_drawn(tensors@, cfg))
                        } else {
                            e@ == ErrorView::ModelLoad("only quantized Granite models supported"@)
                        },
                        None => false,
                    },
                },
            },
    {
        match check_supported(&cfg)? {
            Family::Qwen3 => Ok(Architecture::Qwen3(Qwen3::load(tensors, cfg)?)),
            Family::Gemma4 => Ok(Architecture::Gemma4(Gemma4::load(tensors, cfg)?)),
            Family::Granite => Ok(Architecture::Granite(Granite::load(tensors, cfg)?)),
        }
    }

    /// An empty cache for the model.
    pub fn new_cache(&self) -> (r: ArchitectureCache<A>)
        ensures
            r.family() == self.family(),
            r.well_formed(),
            r.is_empty(),
    {
        match self {
            Architecture::Qwen3(_) => ArchitectureCache::Qwen3(cache::KvCache::new()),
            Architecture::Gemma4(_) => ArchitectureCache::Gemma4(cache::KvCache::new()),
            Architecture::Granite(_) => ArchitectureCache::Granite(granite::KvCache::new()),
        }
    }

    /// Checks that a cache is one for the model's architecture.
    pub fn check_cache(&self, cache: &ArchitectureCache<A>) -> (r: Result<(), Error>)
        ensures
            match r {
                Ok(()) => self.family() == cache.family(),
                Err(e) => self.family() != cache.family() && e@ == ErrorView::Inference(
                    "model/cache architecture mismatch"@,
                ),
            },
    {
        match (self, cache) {
            (Architecture::Qwen3(_), ArchitectureCache::Qwen3(_)) => Ok(()),
            (Architecture::Gemma4(_), ArchitectureCache::Gemma4(_)) => Ok(()),
            (Architecture::Granite(_), ArchitectureCache::Granite(_)) => Ok(()),
            _ => Err(Error::Inference("model/cache architecture mismatch".to_owned())),
        }
    }

    /// The token that the model is warmed up with.
    pub fn warmup_token(&self) -> (r: u32)
        ensures
            r == match self.family() {
                Family::Qwen3 => 151643u32,
                Family::Gemma4 => 2u32,
                Family::Granite => 100257u32,
            },
    {
        match self {
            Architecture::Qwen3(_) => 151643,
            Architecture::Gemma4(_) => 2,
            Architecture::Granite(_) => 100257,
        }
    }
}

/// The steps of a forward pass over all tokens at once, the one that gives the
/// logits, and the masks that they use.
pub struct WholePass<'a, A> {
    pub graph: Graph<'a, A>,
    pub logits: usize,
    /// Where the new tokens go in the cache.
    pub span: Span,
    /// The mask without a window; none where it hides nothing.
    pub full_mask: Option<Vec<Vec<bool>>>,
    /// The mask with the sliding window.
    pub sliding_mask: Option<Vec<Vec<bool>>>,
}

/// A forward pass.
pub enum Forward<'a, A> {
    /// All tokens at once.
    Whole(WholePass<'a, A>),
    /// One token after the other.
    OneByOne(TokenByToken<'a, A>),
}

/// Whether `p` is a pass of a Qwen3 model over `tokens` behind `cached` others.
pub open spec fn is_qwen3_pass<'a, A>(
    p: WholePass<'a, A>,
    model: Qwen3<A>,
    tokens: Seq<u32>,
    cached: int,
    all: bool,
) -> bool {
    &&& p.graph.well_formed()
    &&& p.graph.holds(p.logits)
    &&& p.span.well_formed()
    &&& p.span == cache::span_behind(cached, tokens.len() as int)
    &&& p.full_mask is None == masks::unmasked(tokens.len() as int, cached, None)
    &&& exists|plan: qwen3::ForwardPlan| #[trigger]
        plan.is_plan(model.cfg, tokens, cached) && p.full_mask == plan.mask && p.graph.at(p.logits)
            == qwen3_forward::forward_term(model, plan, Some(p.span), all)
}

/// Whether `p` is a pass of a Gemma 4 model over `tokens` behind `cached` others.
pub open spec fn is_gemma_pass<'a, A>(
    p: WholePass<'a, A>,
    model: Gemma4<A>,
    tokens: Seq<u32>,
    cached: int,
    all: bool,
) -> bool {
    &&& p.graph.well_formed()
    &&& p.graph.holds(p.logits)
    &&& p.span.well_formed()
    &&& p.span == cache::span_behind(cached, tokens.len() as int)
    &&& exists|plan: gemma::ForwardPlan| #[trigger]
        plan.is_plan(model, tokens, cached) && p.full_mask == plan.full_mask && p.sliding_mask
            == plan.sliding_mask && p.graph.at(p.logits) == gemma_forward::forward_term(
            model,
            plan.token_ids@,
            gemma_forward::pass_of(model, plan),
            plan.last_row,
            all,
        )
}

/// Whether `r` is what a forward pass of `model` over `tokens` comes to, behind
/// what `cache` holds; with the logits after every token, or after the last one
/// only.
pub open spec fn is_forward<'a, A>(
    r: Result<Forward<'a, A>, Error>,
    model: Architecture<A>,
    tokens: Seq<u32>,
    cache: ArchitectureCache<A>,
    all: bool,
) -> bool {
    let cached = cache.seq_len_spec() as int;
    if model.family() != cache.family() {
        r matches Err(e) && e@ == ErrorView::Inference("model/cache architecture mismatch"@)
    } else {
        match model {
            Architecture::Qwen3(m) => match r {
                Ok(Forward::Whole(p)) => tokens.len() + cached <= cache::KV_PREALLOC
                    && is_qwen3_pass(p, m, tokens, cached, all),
                Ok(_) => false,
                Err(e) => tokens.len() + cached > cache::KV_PREALLOC && e@ == cache::exhausted(
                    tokens.len() + cached,
                ),
            },
            Architecture::Gemma4(m) => match r {
                Ok(Forward::Whole(p)) => tokens.len() + cached <= cache::KV_PREALLOC
                    && gemma_forward::first_defect(m.layers@, m.layers@.len()) is None
                    && is_gemma_pass(p, m, tokens, cached, all),
                Ok(_) => false,
                Err(e) => if tokens.len() + cached > cache::KV_PREALLOC {
                    e@ == cache::exhausted(tokens.len() + cached)
                } else {
                    gemma_forward::first_defect(m.layers@, m.layers@.len()) == Some(e@)
                },
            },
            Architecture::Granite(m) => match r {
                Ok(Forward::OneByOne(p)) => granite::is_token_by_token(Ok(p), m, tokens, all),
                Ok(_) => false,
                Err(e) => granite::is_token_by_token(Err(e), m, tokens, all),
            },
        }
    }
}

impl<A> Architecture<A> {
    /// Whether the numbers of the model fit the array library, which counts in
    /// `i32`.
    pub open spec fn fits(self) -> bool {
        match self {
            Architecture::Qwen3(m) => attention::sizes_fit(m.cfg),
            Architecture::Gemma4(m) => gemma_forward::layers_fit(m),
            Architecture::Granite(m) => granite_forward::model_fits(m),
        }
    }

    /// Whether the numbers of the model fit the array library.
    pub fn check_fits(&self) -> (r: bool)
        ensures
            r == self.fits(),
    {
        match self {
            Architecture::Qwen3(m) => attention::check_sizes(&m.cfg),
            Architecture::Gemma4(m) => m.check_fits(),
            Architecture::Granite(m) => granite_forward::check_fits(m),
        }
    }

    /// A forward pass over `tokens`, behind what the cache holds, that gives the
    /// logits after the last of them.
    pub fn forward<'a>(&'a self, tokens: &[u32], cache: &ArchitectureCache<A>) -> (r: Result<
        Forward<'a, A>,
        Error,
    >)
        requires
            self.fits(),
            tokens@.len() + cache.seq_len_spec() <= i32::MAX,
        ensures
            is_forward(r, *self, tokens@, *cache, false),
    {
        self.forward_internal(tokens, cache, false)
    }

    /// A forward pass over `tokens`, behind what the cache holds, that gives the
    /// logits after each of them.
    pub fn forward_multi<'a>(&'a self, tokens: &[u32], cache: &ArchitectureCache<A>) -> (r: Result<
        Forward<'a, A>,
        Error,
    >)
        requires
            self.fits(),
            tokens@.len() + cache.seq_len_spec() <= i32::MAX,
        ensures
            is_forward(r, *self, tokens@, *cache, true),
    {
        self.forward_internal(tokens, cache, true)
    }

    fn forward_internal<'a>(
        &'a self,
        tokens: &[u32],
        cache: &ArchitectureCache<A>,
        all: bool,
    ) -> (r: Result<Forward<'a, A>, Error>)
        requires
            self.fits(),
            tokens@.len() + cache.seq_len_spec() <= i32::MAX,
        ensures
            is_forward(r, *self, tokens@, *cache, all),
    {
        self.check_cache(cache)?;
        let cached = cache.seq_len();
        match self {
            Architecture::Qwen3(m) => {
                let (span, plan) = m.plan_forward(tokens, cached)?;
                let (graph, logits) = if all {
                    m.forward_multi(&plan, Some(span))
                } else {
                    m.forward(&plan, Some(span))
                };
                assert(span == cache::span_behind(cached as int, tokens@.len() as int));
                assert(plan.is_plan(m.cfg, tokens@, cached as int));
                let full_mask = plan.mask;
                Ok(Forward::Whole(WholePass {
                    graph,
                    logits,
                    span,
                    full_mask,
                    sliding_mask: None,
                }))
            },
            Architecture::Gemma4(m) => {
                let plan = m.plan_forward(tokens, cached)?;
                let (graph, logits) = if all {
                    m.forward_multi(&plan)?
                } else {
                    m.forward(&plan)?
                };
                assert(plan.is_plan(*m, tokens@, cached as int));
                let span = plan.span;
                assert(span == cache::span_behind(cached as int, tokens@.len() as int));
                let full_mask = plan.full_mask;
                let sliding_mask = plan.sliding_mask;
                Ok(Forward::Whole(WholePass { graph, logits, span, full_mask, sliding_mask }))
            },
            Architecture::Granite(m) => {
                let pass = if all {
                    m.forward_multi(tokens)?
                } else {
                    m.forward(tokens)?
                };
                Ok(Forward::OneByOne(pass))
            },
        }
    }
}

impl<A> ArchitectureCache<A> {
    /// The architecture that the cache is for.
    pub open spec fn family(self) -> Family {
        match self {
            ArchitectureCache::Qwen3(_) => Family::Qwen3,
            ArchitectureCache::Gemma4(_) => Family::Gemma4,
            ArchitectureCache::Granite(_) => Family::Granite,
        }
    }

    /// Whether every layer has a slot of each kind.
    pub open spec fn well_formed(self) -> bool {
        match self {
            ArchitectureCache::Qwen3(c) => c.well_formed(),
            ArchitectureCache::Gemma4(c) => c.well_formed(),
            ArchitectureCache::Granite(c) => c.well_formed(),
        }
    }

    /// How many positions are in use.
    pub open spec fn seq_len_spec(self) -> usize {
        match self {
            ArchitectureCache::Qwen3(c) => c.seq_len,
            ArchitectureCache::Gemma4(c) => c.seq_len,
            ArchitectureCache::Granite(c) => c.seq_len,
        }
    }

    /// The buffers of the keys.
    pub open spec fn keys(self) -> Seq<Option<A>> {
        match self {
            ArchitectureCache::Qwen3(c) => c.k@,
            ArchitectureCache::Gemma4(c) => c.k@,
            ArchitectureCache::Granite(c) => c.k@,
        }
    }

    /// The buffers of the values.
    pub open spec fn values(self) -> Seq<Option<A>> {
        match self {
            ArchitectureCache::Qwen3(c) => c.v@,
            ArchitectureCache::Gemma4(c) => c.v@,
            ArchitectureCache::Granite(c) => c.v@,
        }
    }

    /// What the Mamba blocks keep for their convolutions.
    pub open spec fn conv_states(self) -> Seq<Option<A>> {
        match self {
            ArchitectureCache::Granite(c) => c.conv@,
            _ => Seq::empty(),
        }
    }

    /// The recurrent state of the Mamba blocks.
    pub open spec fn ssm_states(self) -> Seq<Option<A>> {
        match self {
            ArchitectureCache::Granite(c) => c.ssm@,
            _ => Seq::empty(),
        }
    }

    /// Whether nothing is kept.
    pub open spec fn is_empty(self) -> bool {
        self.seq_len_spec() == 0 && self.keys().len() == 0 && self.values().len() == 0
    }

    /// How many positions are in use.
    pub fn seq_len(&self) -> (r: usize)
        ensures
            r == self.seq_len_spec(),
    {
        match self {
            ArchitectureCache::Qwen3(c) => c.seq_len,
            ArchitectureCache::Gemma4(c) => c.seq_len,
            ArchitectureCache::Granite(c) => c.seq_len,
        }
    }

    /// Forgets everything.
    pub fn reset(&mut self)
        ensures
            final(self).family() == old(self).family(),
            final(self).well_formed(),
            final(self).is_empty(),
    {
        match self {
            ArchitectureCache::Qwen3(c) => c.reset(),
            ArchitectureCache::Gemma4(c) => c.reset(),
            ArchitectureCache::Granite(c) => c.reset(),
        }
    }

    /// Forgets all but the first `target_seq_len` positions: those behind them are no
    /// longer counted as in use, while the buffers stay what they are. A cache that holds no
    /// more than that is left as it is. What the Mamba blocks keep cannot be taken
    /// back, and is forgotten whole.
    pub fn truncate(&mut self, target_seq_len: usize)
        requires
            old(self).well_formed(),
        ensures
            final(self).family() == old(self).family(),
            final(self).well_formed(),
            final(self).keys() == old(self).keys(),
            final(self).values() == old(self).values(),
            if target_seq_len >= old(self).seq_len_spec() {
                *final(self) == *old(self)
            } else {
                &&& final(self).seq_len_spec() == target_seq_len
                &&& final(self).conv_states() == granite::emptied(old(self).conv_states())
                &&& final(self).ssm_states() == granite::emptied(old(self).ssm_states())
            },
    {
        match self {
            ArchitectureCache::Qwen3(c) => c.truncate(target_seq_len),
            ArchitectureCache::Gemma4(c) => c.truncate(target_seq_len),
            ArchitectureCache::Granite(c) => c.truncate(target_seq_len),
        }
    }
}

/// What terms stand for, a table of rows or one row, and what a weight matrix and a
/// cap make of a row.
#[verifier::reject_recursive_types(A)]
#[verifier::reject_recursive_types(R)]
pub struct Meaning<A, R> {
    pub table: spec_fn(Term<A>) -> Seq<R>,
    pub row: spec_fn(Term<A>) -> R,
    pub linear: spec_fn(R, Quantized<A>) -> R,
    pub softcap: spec_fn(R, F32) -> R,
}

impl<A, R> Meaning<A, R> {
    /// Whether taking a row takes that row, and a row as a table is a table of it.
    pub open spec fn takes_rows(self) -> bool {
        &&& forall|x: Term<A>, i: i32|
            0 <= i < (self.table)(x).len() ==> (self.row)(#[trigger] x.row(i)) == (self.table)(
                x,
            )[i as int]
        &&& forall|x: Term<A>, i: i32|
            0 <= i < (self.table)(x).len() ==> (self.table)(#[trigger] x.row(i).batch()) == seq![
                (self.table)(x)[i as int],
            ]
    }

    /// Whether a weight matrix and a cap are applied to each row on its own.
    pub open spec fn goes_by_row(self) -> bool {
        &&& forall|x: Term<A>, w: Quantized<A>|
            (self.table)(#[trigger] x.linear(w)) == (self.table)(x).map_values(
                |r: R| (self.linear)(r, w),
            )
        &&& forall|x: Term<A>, cap: F32|
            (self.table)(#[trigger] x.softcap(cap)) == (self.table)(x).map_values(
                |r: R| (self.softcap)(r, cap),
            )
    }
}

/// The head of a model gives a row for each one that goes in.
proof fn lemma_head_rows<A, R>(meaning: Meaning<A, R>, model: Gemma4<A>, x: Term<A>)
    requires
        meaning.goes_by_row(),
    ensures
        (meaning.table)(gemma_forward::head_term(model, x)).len() == (meaning.table)(x).len(),
{
    let a = x.linear(model.embed);
    assert((meaning.table)(a).len() == (meaning.table)(x).len());
    if let Some(cap) = model.cfg.final_logit_softcapping {
        assert((meaning.table)(a.softcap(cap)).len() == (meaning.table)(a).len());
    }
}

/// A row of the logits depends on that row of what goes into the head of a model.
proof fn lemma_heads_by_row<A, R>(
    meaning: Meaning<A, R>,
    model: Gemma4<A>,
    x: Term<A>,
    y: Term<A>,
    i: int,
    j: int,
)
    requires
        meaning.goes_by_row(),
        0 <= i < (meaning.table)(x).len(),
        0 <= j < (meaning.table)(y).len(),
        (meaning.table)(x)[i] == (meaning.table)(y)[j],
    ensures
        (meaning.table)(gemma_forward::head_term(model, x))[i] == (meaning.table)(
            gemma_forward::head_term(model, y),
        )[j],
{
    let a = x.linear(model.embed);
    let b = y.linear(model.embed);
    assert((meaning.table)(a)[i] == (meaning.table)(b)[j]);
    if let Some(cap) = model.cfg.final_logit_softcapping {
        assert((meaning.table)(a.softcap(cap))[i] == (meaning.table)(b.softcap(cap))[j]);
    }
}

/// Whether `one` gives the last row of what `every` gives, and uses the same positions
/// of the cache or carries out the same steps on it.
pub open spec fn gives_last_row<'a, A, R>(
    one: Forward<'a, A>,
    every: Forward<'a, A>,
    cached: int,
    meaning: Meaning<A, R>,
) -> bool {
    match (one, every) {
        (Forward::Whole(p), Forward::Whole(q)) => {
            let rows = (meaning.table)(q.graph.at(q.logits));
            p.span == q.span && (meaning.row)(p.graph.at(p.logits)) == rows[rows.len() - 1]
        },
        (Forward::OneByOne(p), Forward::OneByOne(q)) => *p.model == *q.model && p.tokens@
            == q.tokens@ && granite_forward::logits_of(p, cached) == seq![
            granite_forward::logits_of(q, cached).last(),
        ],
        _ => false,
    }
}

/// A forward pass gives the last row of what the pass with the logits after each
/// token gives, and leaves as much in the cache; and where one fails, so does the
/// other, with the same error. What arrays hold is taken to follow their steps: rows are
/// taken, weighed and capped one by one, and the logits have one for each token.
pub proof fn law_forward_gives_the_last_row<'a, A, R>(
    one: Result<Forward<'a, A>, Error>,
    every: Result<Forward<'a, A>, Error>,
    model: Architecture<A>,
    tokens: Seq<u32>,
    cache: ArchitectureCache<A>,
    meaning: Meaning<A, R>,
)
    requires
        0 < tokens.len(),
        tokens.len() + cache.seq_len_spec() <= i32::MAX,
        is_forward(one, model, tokens, cache, false),
        is_forward(every, model, tokens, cache, true),
        meaning.takes_rows(),
        meaning.goes_by_row(),
        every matches Ok(Forward::Whole(q)) ==> (meaning.table)(q.graph.at(q.logits)).len()
            == tokens.len(),
    ensures
        match (one, every) {
            (Ok(p), Ok(q)) => gives_last_row(p, q, cache.seq_len_spec() as int, meaning),
            (Err(e), Err(f)) => e@ == f@,
            _ => false,
        },
{
    let cached = cache.seq_len_spec() as int;
    match (model, one, every) {
        (Architecture::Qwen3(m), Ok(Forward::Whole(p)), Ok(Forward::Whole(q))) => {
            let a = choose|plan: qwen3::ForwardPlan| #[trigger]
                plan.is_plan(m.cfg, tokens, cached) && p.full_mask == plan.mask && p.graph.at(
                    p.logits,
                ) == qwen3_forward::forward_term(m, plan, Some(p.span), false);
            let b = choose|plan: qwen3::ForwardPlan| #[trigger]
                plan.is_plan(m.cfg, tokens, cached) && q.full_mask == plan.mask && q.graph.at(
                    q.logits,
                ) == qwen3_forward::forward_term(m, plan, Some(q.span), true);
            assert(qwen3_forward::pass_of(a, Some(p.span)) == qwen3_forward::pass_of(
                b,
                Some(q.span),
            ));
        },
        (Architecture::Gemma4(m), Ok(Forward::Whole(p)), Ok(Forward::Whole(q))) => {
            let a = choose|plan: gemma::ForwardPlan| #[trigger]
                plan.is_plan(m, tokens, cached) && p.full_mask == plan.full_mask && p.sliding_mask
                    == plan.sliding_mask && p.graph.at(p.logits) == gemma_forward::forward_term(
                    m,
                    plan.token_ids@,
                    gemma_forward::pass_of(m, plan),
                    plan.last_row,
                    false,
                );
            let b = choose|plan: gemma::ForwardPlan| #[trigger]
                plan.is_plan(m, tokens, cached) && q.full_mask == plan.full_mask && q.sliding_mask
                    == plan.sliding_mask && q.graph.at(q.logits) == gemma_forward::forward_term(
                    m,
                    plan.token_ids@,
                    gemma_forward::pass_of(m, plan),
                    plan.last_row,
                    true,
                );
            assert(gemma_forward::pass_of(m, a) == gemma_forward::pass_of(m, b));
            let x = gemma_forward::hidden_term(m, a.token_ids@, gemma_forward::pass_of(m, a));
            lemma_head_rows(meaning, m, x);
            let last = x.row(a.last_row).batch();
            let head = gemma_forward::head_term(m, last);
            let rows = gemma_forward::head_term(m, x);
            assert((meaning.table)(last) == seq![(meaning.table)(x)[a.last_row as int]]);
            lemma_head_rows(meaning, m, last);
            lemma_heads_by_row(meaning, m, last, x, 0, a.last_row as int);
            assert((meaning.row)(head.row(0)) == (meaning.table)(head)[0]);
        },
        _ => {},
    }
}

/// Of a cache a forward pass looks at nothing but its kind and how many positions
/// are in use: behind a cache that was rewound it is planned as behind one that never
/// held more.
pub proof fn law_a_pass_follows_what_is_in_use<'a, A>(
    r: Result<Forward<'a, A>, Error>,
    model: Architecture<A>,
    tokens: Seq<u32>,
    one: ArchitectureCache<A>,
    other: ArchitectureCache<A>,
    all: bool,
)
    requires
        one.family() == other.family(),
        one.seq_len_spec() == other.seq_len_spec(),
    ensures
        is_forward(r, model, tokens, one, all) == is_forward(r, model, tokens, other, all),
{
}

/// Three names of model types are known, one for each architecture, and no other; and only
/// Gemma 4 passes over tensors, which are those of its other towers.
pub proof fn law_which_models_are_known(model_type: Seq<char>)
    ensures
        family_of(model_type) == Some(Family::Qwen3) <==> model_type == "qwen3"@,
        family_of(model_type) == Some(Family::Gemma4) <==> model_type == "gemma4"@,
        family_of(model_type) == Some(Family::Granite) <==> model_type == "granitemoehybrid"@,
        prefix_of(Family::Qwen3).len() == 0,
        prefix_of(Family::Granite).len() == 0,
        prefix_of(Family::Gemma4) == "language_model."@,
{
    reveal_strlit("qwen3");
    reveal_strlit("gemma4");
    reveal_strlit("granitemoehybrid");
    reveal_strlit("");
    assert("qwen3"@.len() == 5 && "gemma4"@.len() == 6 && "granitemoehybrid"@.len() == 16);
}

} // verus!
