//! What a forward pass of a model computes, in real numbers, whatever the architecture.

use vstd::prelude::*;

use crate::attention;
use crate::cache::Span;
use crate::error::Error;
use crate::gemma;
use crate::gemma::Gemma4;
use crate::gemma_forward;
use crate::gemma_meaning;
use crate::granite::{Granite, TokenByToken};
use crate::granite_forward;
use crate::granite_meaning;
use crate::graph::MaskKind;
use crate::meaning::Reading;
use crate::model::{is_forward, Architecture, ArchitectureCache, Forward, WholePass};
use crate::qwen3;
use crate::qwen3::Qwen3;
use crate::qwen3_forward;
use crate::qwen3_meaning;

verus! {

/// Whether `r` reads the masks that a pass brings.
pub open spec fn reads_masks<'a, A>(r: Reading<A>, p: WholePass<'a, A>) -> bool {
    &&& forall|q: int, k: int| (#[trigger] (r.sees)(MaskKind::Absent, q, k))
    &&& p.full_mask matches Some(rows) ==> forall|q: int, k: int|
        0 <= q < p.span.seq_len && 0 <= k < p.span.new_end ==> (#[trigger] (r.sees)(
            MaskKind::Causal,
            q,
            k,
        )) == rows@[q]@[k]
    &&& p.sliding_mask matches Some(rows) ==> forall|q: int, k: int|
        0 <= q < p.span.seq_len && 0 <= k < p.span.new_end ==> (#[trigger] (r.sees)(
            MaskKind::Sliding,
            q,
            k,
        )) == rows@[q]@[k]
}

/// A forward pass of a Qwen3 model behind what a cache holds gives the logits that its
/// configuration calls for, after every token or after the last one only. The keys and
/// values of the new tokens go behind those that the cache holds, and a token sees itself
/// and all before it.
pub proof fn law_a_qwen3_pass_gives_the_logits<'a, A>(
    r: Reading<A>,
    p: WholePass<'a, A>,
    model: Qwen3<A>,
    tokens: Seq<u32>,
    cache: ArchitectureCache<A>,
    all: bool,
    hidden: int,
    inner: int,
    vocab: int,
    i: int,
    c: int,
)
    requires
        is_forward(
            Ok::<Forward<'a, A>, Error>(Forward::Whole(p)),
            Architecture::Qwen3(model),
            tokens,
            cache,
            all,
        ),
        cache is Qwen3,
        r.sound(),
        reads_masks(r, p),
        attention::sizes_fit(model.cfg),
        0 < model.cfg.per_head_dim_spec(),
        model.cfg.num_attention_heads % model.cfg.kv_heads_spec() == 0,
        tokens.len() + cache.seq_len_spec() <= i32::MAX,
        r.shaping.mask == seq![tokens.len() as int, cache.seq_len_spec() + tokens.len()],
        0 <= hidden,
        0 <= inner,
        qwen3_forward::model_shaped(
            model,
            r.shaping,
            qwen3_meaning::configured(
                model.cfg,
                tokens.len() as int,
                cache.seq_len_spec() as int,
                if p.full_mask is Some {
                    MaskKind::Causal
                } else {
                    MaskKind::Absent
                },
                Some(p.span),
            ),
            hidden,
            inner,
            vocab,
        ),
        0 <= i < tokens.len(),
        !all ==> i == tokens.len() - 1,
    ensures
        ({
            let cached = cache.seq_len_spec() as int;
            let n = (cached + tokens.len()) as nat;
            let pass = qwen3_meaning::configured(
                model.cfg,
                tokens.len() as int,
                cached,
                if p.full_mask is Some {
                    MaskKind::Causal
                } else {
                    MaskKind::Absent
                },
                Some(p.span),
            );
            let ids = tokens.map_values(|t: u32| t as i32);
            &&& p.span.offset == cached
            &&& p.span.seq_len == tokens.len()
            &&& p.span.new_end == n
            &&& r.seen(pass.mask, i, n as int) == Seq::new(n, |j: int| j <= cached + i)
            &&& r.value(p.graph.at(p.logits))(
                0,
                0,
                if all {
                    i
                } else {
                    0
                },
                c,
            ) == qwen3_meaning::logit(r, model, ids, pass, hidden, inner, i, c)
        }),
{
    let cached = cache.seq_len_spec() as int;
    let plan = choose|plan: qwen3::ForwardPlan| #[trigger]
        plan.is_plan(model.cfg, tokens, cached) && p.full_mask == plan.mask && p.graph.at(p.logits)
            == qwen3_forward::forward_term(model, plan, Some(p.span), all);
    qwen3_meaning::law_planned_pass(
        r,
        model,
        plan,
        tokens,
        cached,
        Some(p.span),
        hidden,
        inner,
        vocab,
        i,
        c,
    );
}

/// A forward pass of a Gemma 4 model behind what a cache holds gives the logits that its
/// configuration calls for, after every token or after the last one only. Under full
/// attention a token sees itself and all before it; under sliding attention only the last
/// `sliding_window` of these.
pub proof fn law_a_gemma_pass_gives_the_logits<'a, A>(
    r: Reading<A>,
    p: WholePass<'a, A>,
    model: Gemma4<A>,
    tokens: Seq<u32>,
    cache: ArchitectureCache<A>,
    all: bool,
    pass: gemma_forward::Pass,
    hidden: int,
    vocab: int,
    i: int,
    c: int,
)
    requires
        is_forward(
            Ok::<Forward<'a, A>, Error>(Forward::Whole(p)),
            Architecture::Gemma4(model),
            tokens,
            cache,
            all,
        ),
        cache is Gemma4,
        reads_masks(r, p),
        tokens.len() + cache.seq_len_spec() <= i32::MAX,
        0 < model.cfg.num_attention_heads <= i32::MAX,
        pass == (gemma_forward::Pass {
            span: Span {
                seq_len: tokens.len() as i32,
                offset: cache.seq_len_spec() as i32,
                new_end: (cache.seq_len_spec() + tokens.len()) as i32,
            },
            n_heads: model.cfg.num_attention_heads as i32,
            layers: model.cfg.num_hidden_layers as i32,
            width: model.hidden_per_layer as i32,
            full_mask: if p.full_mask is Some {
                MaskKind::Causal
            } else {
                MaskKind::Absent
            },
            sliding_mask: if p.sliding_mask is Some {
                MaskKind::Sliding
            } else {
                MaskKind::Absent
            },
        }),
        gemma_meaning::readable(r, pass, hidden),
        gemma_forward::model_shaped(model, r.shaping, pass, hidden, vocab),
        gemma_meaning::layers_readable(r, model),
        0 <= i < tokens.len(),
        !all ==> i == tokens.len() - 1,
    ensures
        ({
            let cached = cache.seq_len_spec() as int;
            let n = (cached + tokens.len()) as nat;
            let ids = tokens.map_values(|t: u32| t as i32);
            &&& p.span == pass.span
            &&& r.seen(pass.full_mask, i, n as int) == Seq::new(n, |j: int| j <= cached + i)
            &&& r.seen(pass.sliding_mask, i, n as int) == Seq::new(
                n,
                |j: int| cached + i - model.sliding_window < j <= cached + i,
            )
            &&& r.value(p.graph.at(p.logits))(
                0,
                0,
                if all {
                    i
                } else {
                    0
                },
                c,
            ) == gemma_meaning::logit(r, model, ids, pass, hidden, i, c)
        }),
{
    let cached = cache.seq_len_spec() as int;
    let plan = choose|plan: gemma::ForwardPlan| #[trigger]
        plan.is_plan(model, tokens, cached) && p.full_mask == plan.full_mask && p.sliding_mask
            == plan.sliding_mask && p.graph.at(p.logits) == gemma_forward::forward_term(
            model,
            plan.token_ids@,
            gemma_forward::pass_of(model, plan),
            plan.last_row,
            all,
        );
    assert(gemma_forward::pass_of(model, plan) == pass);
    gemma_meaning::law_planned_pass(r, model, plan, tokens, cached, hidden, vocab, i, c);
}

/// A forward pass of a Granite model over several tokens gives after each of them the
/// logits behind the tokens before it, the cached ones counted; and where only those after
/// the last are asked for, these.
pub proof fn law_a_granite_pass_gives_the_logits<'a, A>(
    r: Reading<A>,
    p: TokenByToken<'a, A>,
    model: Granite<A>,
    tokens: Seq<u32>,
    cache: ArchitectureCache<A>,
    all: bool,
    pass: granite_forward::Pass,
    hidden: int,
    vocab: int,
    i: int,
    c: int,
)
    requires
        is_forward(
            Ok::<Forward<'a, A>, Error>(Forward::OneByOne(p)),
            Architecture::Granite(model),
            tokens,
            cache,
            all,
        ),
        cache is Granite,
        tokens.len() + cache.seq_len_spec() < i32::MAX,
        0 < model.cfg.num_attention_heads <= i32::MAX,
        pass == granite_forward::pass_of(model, cache.seq_len_spec() + i),
        granite_meaning::readable(r, pass, hidden),
        granite_forward::model_shaped(model, r.shaping, pass, hidden, vocab),
        forall|k: int|
            0 <= k < model.layers@.len() ==> granite_meaning::layer_readable(
                r,
                #[trigger] model.layers@[k],
                k,
                pass,
            ),
        0 <= i < tokens.len(),
        !all ==> i == tokens.len() - 1,
    ensures
        ({
            let cached = cache.seq_len_spec() as int;
            let given = granite_forward::logits_of(p, cached);
            let last = granite_meaning::stream(
                r,
                model,
                tokens[i] as i32,
                pass,
                hidden,
                model.layers@.len(),
            );
            &&& pass.span.offset == cached + i
            &&& pass.span.new_end == cached + i + 1
            &&& given.len() == if all {
                tokens.len()
            } else {
                1
            }
            &&& r.value(
                given[if all {
                    i
                } else {
                    0
                }],
            )(0, 0, 0, c) == r.product(model.embed, r.normed_row(model.norm, last), c) * (1real / (
            r.number)(model.cfg.logits_scaling))
        }),
{
    let cached = cache.seq_len_spec() as int;
    granite_meaning::law_logits(r, model, tokens[i] as i32, cached + i, hidden, vocab, c);
    let steps = granite_forward::steps_of(model, p.tokens@, cached);
    assert(steps[i] == granite_forward::forward_term(model, tokens[i] as i32, pass));
    assert(steps.last() == steps[tokens.len() - 1]);
}

} // verus!
