//! The forward pass of Qwen3.

use vstd::prelude::*;

use crate::attention;
use crate::blocks::{
    gated, lemma_gated, lemma_turned, push_gated, push_turned, turned, Activation, Turn,
};
use crate::cache::Span;
use crate::config::ModelConfig;
use crate::graph;
use crate::graph::{Factor, Graph, MaskKind, Part, RopeBase, Shaping, Term};
use crate::qwen3::{ForwardPlan, Qwen3, Qwen3Layer};

verus! {

/// The numbers that a forward pass goes by.
#[derive(Debug, Clone, Copy, PartialEq, Eq, Structural)]
pub struct Pass {
    pub seq_len: i32,
    pub offset: i32,
    pub n_heads: i32,
    pub kv_heads: i32,
    pub head_dim: i32,
    /// `n_heads * head_dim`.
    pub q_dim: i32,
    /// How many attention heads share a key/value head.
    pub repeats: i32,
    pub mask: MaskKind,
    /// Where keys and values are kept, if they are.
    pub keep: Option<Span>,
}

/// The keys or values that attention sees: those of the new tokens, or all that
/// the cache holds once they are kept there.
pub open spec fn kept<A>(x: Term<A>, layer: usize, part: Part, p: Pass) -> Term<A> {
    match p.keep {
        Some(span) => x.keep(layer, part, p.kv_heads, p.head_dim, span),
        None => x,
    }
}

/// How the queries or keys of `heads` heads are turned.
pub open spec fn turn(heads: i32, p: Pass) -> Turn {
    Turn {
        seq_len: p.seq_len,
        heads,
        dim: p.head_dim,
        base: RopeBase::Config,
        offset: p.offset,
    }
}

/// The keys or values as attention takes them: one for each attention head.
pub open spec fn seen<A>(x: Term<A>, layer: usize, part: Part, p: Pass) -> Term<A> {
    kept(x, layer, part, p).repeat(p.repeats).batch()
}

/// What attention adds to the residual stream.
pub open spec fn attention_term<A>(x: Term<A>, l: Qwen3Layer<A>, layer: usize, p: Pass) -> Term<A> {
    let h = x.norm(l.input_norm);
    let q = turned(h, l.q_proj, l.q_norm, turn(p.n_heads, p));
    let k = turned(h, l.k_proj, l.k_norm, turn(p.kv_heads, p));
    let v = h.linear(l.v_proj).reshape(seq![p.seq_len, p.kv_heads, p.head_dim]).swap_first();
    q.batch().attend(
        seen(k, layer, Part::Keys, p),
        seen(v, layer, Part::Values, p),
        Factor::InverseSqrt(p.head_dim as usize),
        p.mask,
    ).swap_middle().reshape(seq![p.seq_len, p.q_dim]).linear(l.o_proj)
}

/// What the feed-forward network adds to the residual stream.
pub open spec fn mlp_term<A>(x: Term<A>, l: Qwen3Layer<A>) -> Term<A> {
    let h = x.norm(l.post_attn_norm);
    gated(h, Activation::Silu, l.gate_proj, l.up_proj, l.down_proj)
}

/// The residual stream behind a layer.
pub open spec fn layer_term<A>(x: Term<A>, l: Qwen3Layer<A>, layer: usize, p: Pass) -> Term<A> {
    let x = x.plus(attention_term(x, l, layer, p));
    x.plus(mlp_term(x, l))
}

/// The residual stream behind the first `n` layers.
pub open spec fn layers_term<A>(x: Term<A>, layers: Seq<Qwen3Layer<A>>, p: Pass, n: nat) -> Term<A>
    decreases n,
{
    if n == 0 {
        x
    } else {
        layer_term(
            layers_term(x, layers, p, (n - 1) as nat),
            layers[n - 1],
            (n - 1) as usize,
            p,
        )
    }
}

/// The logits after each token.
pub open spec fn logits_term<A>(model: Qwen3<A>, tokens: Seq<i32>, p: Pass) -> Term<A> {
    let x = Term::Lookup(model.embed, Box::new(Term::Tokens(tokens)));
    let x = layers_term(x, model.layers@, p, model.layers@.len()).norm(model.norm);
    x.linear(
        match model.lm_head {
            Some(head) => head,
            None => model.embed,
        },
    )
}

fn push_seen<'a, A>(g: &mut Graph<'a, A>, x: usize, layer: usize, part: Part, p: Pass) -> (r: usize)
    requires
        old(g).well_formed(),
        old(g).holds(x),
    ensures
        final(g).extends(*old(g)),
        final(g).holds(r),
        final(g).at(r) == seen(old(g).at(x), layer, part, p),
{
    let k = match p.keep {
        Some(span) => g.keep(x, layer, part, p.kv_heads, p.head_dim, span),
        None => x,
    };
    let k = g.repeat(k, p.repeats);
    g.batch(k)
}

fn push_attention<'a, A>(
    g: &mut Graph<'a, A>,
    x: usize,
    l: &'a Qwen3Layer<A>,
    layer: usize,
    p: Pass,
) -> (r: usize)
    requires
        old(g).well_formed(),
        old(g).holds(x),
    ensures
        final(g).extends(*old(g)),
        final(g).holds(r),
        final(g).at(r) == attention_term(old(g).at(x), *l, layer, p),
{
    let v_shape = vec![p.seq_len, p.kv_heads, p.head_dim];
    let out_shape = vec![p.seq_len, p.q_dim];
    assert(v_shape@ =~= seq![p.seq_len, p.kv_heads, p.head_dim]);
    assert(out_shape@ =~= seq![p.seq_len, p.q_dim]);
    let h = g.norm(x, &l.input_norm);
    let queries = Turn {
        seq_len: p.seq_len,
        heads: p.n_heads,
        dim: p.head_dim,
        base: RopeBase::Config,
        offset: p.offset,
    };
    let keys = Turn { heads: p.kv_heads, ..queries };
    let q = push_turned(g, h, &l.q_proj, &l.q_norm, queries);
    let k = push_turned(g, h, &l.k_proj, &l.k_norm, keys);
    let v = g.linear(h, &l.v_proj);
    let v = g.reshape(v, v_shape);
    let v = g.swap_first(v);
    let q = g.batch(q);
    let k = push_seen(g, k, layer, Part::Keys, p);
    let v = push_seen(g, v, layer, Part::Values, p);
    let a = g.attend(q, k, v, Factor::InverseSqrt(p.head_dim as usize), p.mask);
    let a = g.swap_middle(a);
    let a = g.reshape(a, out_shape);
    g.linear(a, &l.o_proj)
}

fn push_mlp<'a, A>(g: &mut Graph<'a, A>, x: usize, l: &'a Qwen3Layer<A>) -> (r: usize)
    requires
        old(g).well_formed(),
        old(g).holds(x),
    ensures
        final(g).extends(*old(g)),
        final(g).holds(r),
        final(g).at(r) == mlp_term(old(g).at(x), *l),
{
    let h = g.norm(x, &l.post_attn_norm);
    push_gated(g, h, Activation::Silu, &l.gate_proj, &l.up_proj, &l.down_proj)
}

fn push_layer<'a, A>(
    g: &mut Graph<'a, A>,
    x: usize,
    l: &'a Qwen3Layer<A>,
    layer: usize,
    p: Pass,
) -> (r: usize)
    requires
        old(g).well_formed(),
        old(g).holds(x),
    ensures
        final(g).extends(*old(g)),
        final(g).holds(r),
        final(g).at(r) == layer_term(old(g).at(x), *l, layer, p),
{
    let a = push_attention(g, x, l, layer, p);
    let x = g.add_up(x, a);
    let m = push_mlp(g, x, l);
    g.add_up(x, m)
}

/// The numbers of a planned pass.
pub open spec fn pass_of(plan: ForwardPlan, keep: Option<Span>) -> Pass {
    Pass {
        seq_len: plan.seq_len,
        offset: plan.offset,
        n_heads: plan.shapes.q@[1],
        kv_heads: plan.kv_heads,
        head_dim: plan.head_dim,
        q_dim: plan.shapes.out@[1],
        repeats: plan.repeats,
        mask: if plan.mask is Some {
            MaskKind::Causal
        } else {
            MaskKind::Absent
        },
        keep,
    }
}

/// The logits: after every token, or after the last one only.
pub open spec fn forward_term<A>(
    model: Qwen3<A>,
    plan: ForwardPlan,
    keep: Option<Span>,
    all: bool,
) -> Term<A> {
    let logits = logits_term(model, plan.token_ids@, pass_of(plan, keep));
    if all {
        logits
    } else {
        logits.row(plan.last_row)
    }
}

impl<A> Qwen3<A> {
    /// The steps of a planned forward pass, and the one that gives the logits
    /// after the last token.
    pub fn forward<'a>(&'a self, plan: &ForwardPlan, keep: Option<Span>) -> (r: (
        Graph<'a, A>,
        usize,
    ))
        ensures
            r.0.well_formed(),
            r.0.holds(r.1),
            r.0.at(r.1) == forward_term(*self, *plan, keep, false),
    {
        self.forward_internal(plan, keep, false)
    }

    /// The steps of a planned forward pass, and the one that gives the logits
    /// after every token.
    pub fn forward_multi<'a>(&'a self, plan: &ForwardPlan, keep: Option<Span>) -> (r: (
        Graph<'a, A>,
        usize,
    ))
        ensures
            r.0.well_formed(),
            r.0.holds(r.1),
            r.0.at(r.1) == forward_term(*self, *plan, keep, true),
    {
        self.forward_internal(plan, keep, true)
    }

    fn forward_internal<'a>(&'a self, plan: &ForwardPlan, keep: Option<Span>, all: bool) -> (r: (
        Graph<'a, A>,
        usize,
    ))
        ensures
            r.0.well_formed(),
            r.0.holds(r.1),
            r.0.at(r.1) == forward_term(*self, *plan, keep, all),
    {
        let p = Pass {
            seq_len: plan.seq_len,
            offset: plan.offset,
            n_heads: plan.shapes.q[1],
            kv_heads: plan.kv_heads,
            head_dim: plan.head_dim,
            q_dim: plan.shapes.out[1],
            repeats: plan.repeats,
            mask: if plan.mask.is_some() {
                MaskKind::Causal
            } else {
                MaskKind::Absent
            },
            keep,
        };
        let ids = graph::copy_ids(&plan.token_ids);
        let mut g: Graph<'a, A> = Graph::new();
        let tokens = g.tokens(ids);
        let mut x = g.lookup(&self.embed, tokens);
        let ghost start = g.at(x);
        let mut i: usize = 0;
        while i < self.layers.len()
            invariant
                i <= self.layers@.len(),
                g.well_formed(),
                g.holds(x),
                g.at(x) == layers_term(start, self.layers@, p, i as nat),
            decreases self.layers@.len() - i,
        {
            x = push_layer(&mut g, x, &self.layers[i], i, p);
            i = i + 1;
        }
        let x = g.norm(x, &self.norm);
        let logits = match &self.lm_head {
            Some(head) => g.linear(x, head),
            None => g.linear(x, &self.embed),
        };
        let out = if all {
            logits
        } else {
            g.row(logits, plan.last_row)
        };
        (g, out)
    }
}

/// Whether the weights of a layer have the shapes that a pass needs, around a
/// residual stream of width `hidden`.
pub open spec fn layer_shaped<A>(
    l: Qwen3Layer<A>,
    s: Shaping<A>,
    p: Pass,
    hidden: int,
    inner: int,
) -> bool {
    &&& s.is_norm(l.input_norm, hidden)
    &&& s.is_matrix(l.q_proj, p.n_heads * p.head_dim, hidden)
    &&& s.is_matrix(l.k_proj, p.kv_heads * p.head_dim, hidden)
    &&& s.is_matrix(l.v_proj, p.kv_heads * p.head_dim, hidden)
    &&& s.is_norm(l.q_norm, p.head_dim as int)
    &&& s.is_norm(l.k_norm, p.head_dim as int)
    &&& s.is_matrix(l.o_proj, hidden, p.n_heads * p.head_dim)
    &&& s.is_norm(l.post_attn_norm, hidden)
    &&& s.is_matrix(l.gate_proj, inner, hidden)
    &&& s.is_matrix(l.up_proj, inner, hidden)
    &&& s.is_matrix(l.down_proj, hidden, inner)
}

/// Whether the weights of a model have the shapes that a pass needs.
pub open spec fn model_shaped<A>(
    model: Qwen3<A>,
    s: Shaping<A>,
    p: Pass,
    hidden: int,
    inner: int,
    vocab: int,
) -> bool {
    &&& s.is_matrix(model.embed, vocab, hidden)
    &&& forall|i: int|
        0 <= i < model.layers@.len() ==> layer_shaped(
            #[trigger] model.layers@[i],
            s,
            p,
            hidden,
            inner,
        )
    &&& s.is_norm(model.norm, hidden)
    &&& model.lm_head matches Some(head) ==> s.is_matrix(head, vocab, hidden)
}

/// How many keys attention sees.
pub open spec fn keys_seen(p: Pass) -> int {
    match p.keep {
        Some(span) => span.new_end as int,
        None => p.seq_len as int,
    }
}

/// Whether the numbers of a pass belong together.
pub open spec fn pass_consistent(p: Pass) -> bool {
    &&& 0 < p.kv_heads
    &&& 0 < p.n_heads
    &&& p.n_heads == p.kv_heads * p.repeats
    &&& p.q_dim == p.n_heads * p.head_dim
    &&& p.keep matches Some(span) ==> span.seq_len == p.seq_len
}

pub(crate) proof fn lemma_seen<A>(s: Shaping<A>, x: Term<A>, layer: usize, part: Part, p: Pass)
    requires
        pass_consistent(p),
        s.shape(x) == Some(seq![p.kv_heads as int, p.seq_len as int, p.head_dim as int]),
    ensures
        s.shape(seen(x, layer, part, p)) == Some(
            seq![1int, p.n_heads as int, keys_seen(p), p.head_dim as int],
        ),
{
    let a = kept(x, layer, part, p);
    assert(s.shape(a) == Some(seq![p.kv_heads as int, keys_seen(p), p.head_dim as int]));
    let b = a.repeat(p.repeats);
    assert(seq![p.kv_heads as int, keys_seen(p), p.head_dim as int].update(
        0,
        p.kv_heads * p.repeats,
    ) =~= seq![p.n_heads as int, keys_seen(p), p.head_dim as int]);
    assert(s.shape(b) == Some(seq![p.n_heads as int, keys_seen(p), p.head_dim as int]));
    graph::lemma_batch(s, b, p.n_heads as int, keys_seen(p), p.head_dim as int);
}

pub(crate) proof fn lemma_attention<A>(
    s: Shaping<A>,
    x: Term<A>,
    l: Qwen3Layer<A>,
    layer: usize,
    p: Pass,
    hidden: int,
    inner: int,
)
    requires
        pass_consistent(p),
        layer_shaped(l, s, p, hidden, inner),
        s.mask == seq![p.seq_len as int, keys_seen(p)],
        s.shape(x) == Some(seq![p.seq_len as int, hidden]),
    ensures
        s.shape(attention_term(x, l, layer, p)) == Some(seq![p.seq_len as int, hidden]),
{
    let n = p.seq_len as int;
    let dim = p.head_dim as int;
    let h = x.norm(l.input_norm);
    assert(s.shape(h) == Some(seq![n, hidden]));
    let q = turned(h, l.q_proj, l.q_norm, turn(p.n_heads, p));
    let k = turned(h, l.k_proj, l.k_norm, turn(p.kv_heads, p));
    lemma_turned(s, h, l.q_proj, l.q_norm, turn(p.n_heads, p), hidden);
    lemma_turned(s, h, l.k_proj, l.k_norm, turn(p.kv_heads, p), hidden);
    let v0 = h.linear(l.v_proj);
    graph::lemma_linear(s, h, l.v_proj, n, p.kv_heads * p.head_dim, hidden);
    graph::lemma_reshape_to_heads(s, v0, p.seq_len, p.kv_heads, p.head_dim);
    let v1 = v0.reshape(seq![p.seq_len, p.kv_heads, p.head_dim]);
    let v = v1.swap_first();
    assert(s.shape(v) == Some(seq![p.kv_heads as int, n, dim]));
    lemma_seen(s, k, layer, Part::Keys, p);
    lemma_seen(s, v, layer, Part::Values, p);
    let qb = q.batch();
    graph::lemma_batch(s, q, p.n_heads as int, n, dim);
    let a = qb.attend(
        seen(k, layer, Part::Keys, p),
        seen(v, layer, Part::Values, p),
        Factor::InverseSqrt(p.head_dim as usize),
        p.mask,
    );
    assert(p.n_heads % p.n_heads == 0) by (nonlinear_arith)
        requires
            0 < p.n_heads,
    ;
    assert(s.shape(a) == Some(seq![1int, p.n_heads as int, n, dim]));
    graph::lemma_heads_back(s, a, p.seq_len, p.n_heads, p.head_dim, p.q_dim);
    let c = a.swap_middle().reshape(seq![p.seq_len, p.q_dim]);
    graph::lemma_linear(s, c, l.o_proj, n, hidden, p.n_heads * p.head_dim);
}

pub(crate) proof fn lemma_mlp<A>(
    s: Shaping<A>,
    x: Term<A>,
    l: Qwen3Layer<A>,
    p: Pass,
    hidden: int,
    inner: int,
)
    requires
        layer_shaped(l, s, p, hidden, inner),
        s.shape(x) == Some(seq![p.seq_len as int, hidden]),
    ensures
        s.shape(mlp_term(x, l)) == Some(seq![p.seq_len as int, hidden]),
{
    let n = p.seq_len as int;
    let h = x.norm(l.post_attn_norm);
    assert(s.shape(h) == Some(seq![n, hidden]));
    lemma_gated(s, h, Activation::Silu, l.gate_proj, l.up_proj, l.down_proj, n, hidden, inner);
}

pub(crate) proof fn lemma_layers<A>(
    s: Shaping<A>,
    x: Term<A>,
    model: Qwen3<A>,
    p: Pass,
    hidden: int,
    inner: int,
    vocab: int,
    k: nat,
)
    requires
        pass_consistent(p),
        model_shaped(model, s, p, hidden, inner, vocab),
        s.mask == seq![p.seq_len as int, keys_seen(p)],
        s.shape(x) == Some(seq![p.seq_len as int, hidden]),
        k <= model.layers@.len(),
    ensures
        s.shape(layers_term(x, model.layers@, p, k)) == Some(seq![p.seq_len as int, hidden]),
    decreases k,
{
    if k > 0 {
        lemma_layers(s, x, model, p, hidden, inner, vocab, (k - 1) as nat);
        let y = layers_term(x, model.layers@, p, (k - 1) as nat);
        let l = model.layers@[k - 1];
        let layer = (k - 1) as usize;
        lemma_attention(s, y, l, layer, p, hidden, inner);
        let z = y.plus(attention_term(y, l, layer, p));
        assert(s.shape(z) == Some(seq![p.seq_len as int, hidden]));
        lemma_mlp(s, z, l, p, hidden, inner);
    }
}

/// In a model whose weights have the right shapes, every step of a forward pass
/// is given arrays of shapes that it can take, whatever the number of tokens and
/// however many are cached; and the pass gives a row of logits for each token.
pub proof fn law_every_step_fits<A>(
    model: Qwen3<A>,
    s: Shaping<A>,
    tokens: Seq<i32>,
    p: Pass,
    hidden: int,
    inner: int,
    vocab: int,
)
    requires
        pass_consistent(p),
        tokens.len() == p.seq_len,
        model_shaped(model, s, p, hidden, inner, vocab),
        s.mask == seq![p.seq_len as int, keys_seen(p)],
    ensures
        s.shape(logits_term(model, tokens, p)) == Some(seq![p.seq_len as int, vocab]),
        p.seq_len > 0 ==> s.shape(logits_term(model, tokens, p).row((p.seq_len - 1) as i32))
            == Some(seq![vocab]),
{
    let t = Term::Tokens(tokens);
    let x = Term::Lookup(model.embed, Box::new(t));
    assert(s.shape(t) == Some(seq![p.seq_len as int]));
    assert(s.shape(x) == Some(seq![p.seq_len as int, hidden]));
    lemma_layers(s, x, model, p, hidden, inner, vocab, model.layers@.len());
    let y = layers_term(x, model.layers@, p, model.layers@.len());
    let z = y.norm(model.norm);
    assert(s.shape(z) == Some(seq![p.seq_len as int, hidden]));
    let head = match model.lm_head {
        Some(head) => head,
        None => model.embed,
    };
    graph::lemma_linear(s, z, head, p.seq_len as int, vocab, hidden);
}

/// The numbers of a planned pass belong together, so long as the attention heads
/// share the key/value heads evenly.
pub proof fn law_planned_passes_are_consistent(
    cfg: ModelConfig,
    plan: ForwardPlan,
    tokens: Seq<u32>,
    keep: Option<Span>,
)
    requires
        attention::sizes_fit(cfg),
        tokens.len() <= i32::MAX,
        plan.is_plan(cfg, tokens, plan.offset as int),
        cfg.num_attention_heads % cfg.kv_heads_spec() == 0,
        keep matches Some(span) ==> span.seq_len == plan.seq_len,
    ensures
        pass_consistent(pass_of(plan, keep)),
{
    let h = cfg.num_attention_heads as int;
    let k = cfg.kv_heads_spec() as int;
    assert(h == k * (h / k)) by (nonlinear_arith)
        requires
            0 < k,
            h % k == 0,
    ;
}

} // verus!
