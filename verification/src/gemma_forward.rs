//! The forward pass of Gemma 4.

use vstd::prelude::*;

use crate::blocks::{
    gated, lemma_gated, lemma_turned, push_gated, push_turned, turned, Activation, Turn,
};
use crate::cache::Span;
use crate::config::ModelConfig;
use crate::error::{Error, ErrorView};
use crate::float_bits::F32;
use crate::gemma;
use crate::gemma::{ForwardPlan, Gemma4, Gemma4Layer, KvSource, LayerType};
use crate::graph;
use crate::graph::{Factor, Graph, MaskKind, Part, RopeBase, Shaping, Term};
use crate::sampler;
use crate::weights::Quantized;

verus! {

/// The numbers that a forward pass goes by.
#[derive(Debug, Clone, Copy, PartialEq, Eq, Structural)]
pub struct Pass {
    pub span: Span,
    pub n_heads: i32,
    /// How many layers there are.
    pub layers: i32,
    /// The width of the input that each layer has for itself.
    pub width: i32,
    pub full_mask: MaskKind,
    pub sliding_mask: MaskKind,
}

/// The keys and values of a layer.
pub struct KvTerms<A> {
    pub k: Term<A>,
    pub v: Term<A>,
}

/// The residual stream behind some layers, and the keys and values of each.
pub struct Stream<A> {
    pub x: Term<A>,
    pub kvs: Seq<KvTerms<A>>,
}

/// The frequencies that a layer turns its queries and keys by.
pub open spec fn base_of(t: LayerType) -> RopeBase {
    match t {
        LayerType::Sliding => RopeBase::Sliding,
        LayerType::Full => RopeBase::Full,
    }
}

/// The mask of a layer.
pub open spec fn mask_of(t: LayerType, p: Pass) -> MaskKind {
    match t {
        LayerType::Sliding => p.sliding_mask,
        LayerType::Full => p.full_mask,
    }
}

/// The inputs that the layers have for themselves: for each token and each
/// layer, a row from an embedding of its own and a projection of the token's.
pub open spec fn inputs_term<A>(model: Gemma4<A>, tokens: Term<A>, x: Term<A>, p: Pass) -> Term<A> {
    let by_token = Term::Lookup(model.embed_per_layer, Box::new(tokens)).scale(
        Factor::Sqrt(model.hidden_per_layer),
    ).reshape(seq![p.span.seq_len, p.layers, p.width]);
    let projected = x.linear(model.per_layer_model_projection).scale(
        Factor::MinusHalfPower(model.cfg.hidden_size),
    ).reshape(seq![p.span.seq_len, p.layers, p.width]).norm(model.per_layer_projection_norm);
    projected.plus(by_token).scale(Factor::MinusHalfPower(2))
}

/// How the queries or keys of `heads` heads of a layer are turned.
pub open spec fn turn<A>(heads: i32, l: Gemma4Layer<A>, span: Span) -> Turn {
    Turn {
        seq_len: span.seq_len,
        heads,
        dim: l.head_dim,
        base: base_of(l.layer_type),
        offset: span.offset,
    }
}

/// The keys and values that a layer uses: its own, which are kept in the cache,
/// or those of the layer that it shares with.
pub open spec fn kv_term<A>(
    h: Term<A>,
    l: Gemma4Layer<A>,
    li: usize,
    kvs: Seq<KvTerms<A>>,
    p: Pass,
) -> KvTerms<A> {
    if l.has_kv {
        KvTerms {
            k: turned(
                h,
                l.k_proj.unwrap(),
                l.k_norm.unwrap(),
                turn(l.kv_heads, l, p.span),
            ).keep(li, Part::Keys, l.kv_heads, l.head_dim, p.span),
            v: h.linear(l.v_proj.unwrap()).reshape(
                seq![p.span.seq_len, l.kv_heads, l.head_dim],
            ).plain_norm(l.v_norm_eps).swap_first().keep(
                li,
                Part::Values,
                l.kv_heads,
                l.head_dim,
                p.span,
            ),
        }
    } else {
        kvs[l.previous_kv as int]
    }
}

/// What attention gives.
pub open spec fn attention_term<A>(
    h: Term<A>,
    l: Gemma4Layer<A>,
    kv: KvTerms<A>,
    p: Pass,
) -> Term<A> {
    turned(h, l.q_proj, l.q_norm, turn(p.n_heads, l, p.span)).batch().attend(
        kv.k.batch(),
        kv.v.batch(),
        Factor::Given(F32 { bits: sampler::ONE_BITS }),
        mask_of(l.layer_type, p),
    ).swap_middle().reshape(
        seq![p.span.seq_len, (p.n_heads * l.head_dim) as i32],
    ).linear(l.o_proj)
}

/// What the feed-forward network adds to the residual stream.
pub open spec fn mlp_term<A>(x: Term<A>, l: Gemma4Layer<A>) -> Term<A> {
    let h = x.norm(l.pre_ffn_norm);
    gated(h, Activation::Gelu, l.gate_proj, l.up_proj, l.down_proj).norm(l.post_ffn_norm)
}

/// What the layer's own input adds to the residual stream.
pub open spec fn own_input_term<A>(
    x: Term<A>,
    inputs: Term<A>,
    l: Gemma4Layer<A>,
    li: usize,
) -> Term<A> {
    x.linear(l.per_layer_input_gate).gelu().times(inputs.slot(li as i32)).linear(
        l.per_layer_projection,
    ).norm(l.post_per_layer_input_norm)
}

/// The residual stream behind a layer, from what attention gives.
pub open spec fn merged<A>(
    x: Term<A>,
    attn: Term<A>,
    inputs: Term<A>,
    l: Gemma4Layer<A>,
    li: usize,
) -> Term<A> {
    let x = x.plus(attn.norm(l.post_attn_norm));
    let x = x.plus(mlp_term(x, l));
    x.plus(own_input_term(x, inputs, l, li)).scale_by(l.layer_scalar)
}

/// The residual stream, and the keys and values, behind a layer.
pub open spec fn layer_stream<A>(
    s: Stream<A>,
    inputs: Term<A>,
    l: Gemma4Layer<A>,
    li: usize,
    p: Pass,
) -> Stream<A> {
    let h = s.x.norm(l.input_norm);
    let kv = kv_term(h, l, li, s.kvs, p);
    Stream { x: merged(s.x, attention_term(h, l, kv, p), inputs, l, li), kvs: s.kvs.push(kv) }
}

/// The residual stream, and the keys and values, behind the first `n` layers.
pub open spec fn layers_stream<A>(
    x: Term<A>,
    inputs: Term<A>,
    layers: Seq<Gemma4Layer<A>>,
    p: Pass,
    n: nat,
) -> Stream<A>
    decreases n,
{
    if n == 0 {
        Stream { x, kvs: Seq::empty() }
    } else {
        layer_stream(
            layers_stream(x, inputs, layers, p, (n - 1) as nat),
            inputs,
            layers[n - 1],
            (n - 1) as usize,
            p,
        )
    }
}

/// What comes out of the last layer, normalised.
pub open spec fn hidden_term<A>(model: Gemma4<A>, tokens: Seq<i32>, p: Pass) -> Term<A> {
    let t = Term::Tokens(tokens);
    let x = Term::Lookup(model.embed, Box::new(t)).scale(Factor::Sqrt(model.cfg.hidden_size));
    let inputs = inputs_term(model, t, x, p);
    layers_stream(x, inputs, model.layers@, p, model.layers@.len()).x.norm(model.norm)
}

/// The logits of some rows of what comes out of the last layer.
pub open spec fn head_term<A>(model: Gemma4<A>, x: Term<A>) -> Term<A> {
    let logits = x.linear(model.embed);
    match model.cfg.final_logit_softcapping {
        Some(cap) => logits.softcap(cap),
        None => logits,
    }
}

/// The logits: after every token, or after the last one only.
pub open spec fn forward_term<A>(
    model: Gemma4<A>,
    tokens: Seq<i32>,
    p: Pass,
    last_row: i32,
    all: bool,
) -> Term<A> {
    let x = hidden_term(model, tokens, p);
    if all {
        head_term(model, x)
    } else {
        head_term(model, x.row(last_row).batch()).row(0)
    }
}

/// The numbers of a planned pass.
pub open spec fn pass_of<A>(model: Gemma4<A>, plan: ForwardPlan) -> Pass {
    Pass {
        span: plan.span,
        n_heads: model.cfg.num_attention_heads as i32,
        layers: plan.per_layer_shape@[1],
        width: plan.per_layer_shape@[2],
        full_mask: if plan.full_mask is Some {
            MaskKind::Causal
        } else {
            MaskKind::Absent
        },
        sliding_mask: if plan.sliding_mask is Some {
            MaskKind::Sliding
        } else {
            MaskKind::Absent
        },
    }
}

/// Why the first layer that has no keys and values has none.
pub open spec fn first_defect<A>(layers: Seq<Gemma4Layer<A>>, n: nat) -> Option<ErrorView>
    decreases n,
{
    if n == 0 {
        None
    } else if first_defect(layers, (n - 1) as nat) is Some {
        first_defect(layers, (n - 1) as nat)
    } else {
        layers[n - 1].kv_defect((n - 1) as nat)
    }
}

pub(crate) proof fn lemma_defect_stays<A>(layers: Seq<Gemma4Layer<A>>, i: nat, n: nat)
    requires
        i <= n,
        first_defect(layers, i) is Some,
    ensures
        first_defect(layers, n) == first_defect(layers, i),
    decreases n,
{
    if i < n {
        lemma_defect_stays(layers, i, (n - 1) as nat);
    }
}

/// Whether the widths of all layers fit the array library, which counts in
/// `i32`.
pub open spec fn layers_fit<A>(model: Gemma4<A>) -> bool {
    &&& model.cfg.num_attention_heads <= i32::MAX
    &&& forall|i: int|
        0 <= i < model.layers@.len() ==> i32::MIN <= model.cfg.num_attention_heads
            * #[trigger] model.layers@[i].head_dim <= i32::MAX
}

/// Whether `r` is what a forward pass comes to: its steps and the one that gives
/// the logits, or the error of the first layer that has no keys and values.
pub open spec fn is_forward<'a, A>(
    r: Result<(Graph<'a, A>, usize), Error>,
    model: Gemma4<A>,
    plan: ForwardPlan,
    all: bool,
) -> bool {
    match r {
        Ok(f) => {
            &&& first_defect(model.layers@, model.layers@.len()) is None
            &&& f.0.well_formed()
            &&& f.0.holds(f.1)
            &&& f.0.at(f.1) == forward_term(
                model,
                plan.token_ids@,
                pass_of(model, plan),
                plan.last_row,
                all,
            )
        },
        Err(e) => first_defect(model.layers@, model.layers@.len()) == Some(e@),
    }
}

fn turn_of<A>(heads: i32, l: &Gemma4Layer<A>, span: Span) -> (r: Turn)
    ensures
        r == turn(heads, *l, span),
{
    Turn {
        seq_len: span.seq_len,
        heads,
        dim: l.head_dim,
        base: rope_base(l.layer_type),
        offset: span.offset,
    }
}

fn push_values<'a, A>(
    g: &mut Graph<'a, A>,
    h: usize,
    w: &'a Quantized<A>,
    l: &'a Gemma4Layer<A>,
    li: usize,
    span: Span,
) -> (r: usize)
    requires
        old(g).well_formed(),
        old(g).holds(h),
    ensures
        final(g).extends(*old(g)),
        final(g).holds(r),
        final(g).at(r) == old(g).at(h).linear(*w).reshape(
            seq![span.seq_len, l.kv_heads, l.head_dim],
        ).plain_norm(l.v_norm_eps).swap_first().keep(
            li,
            Part::Values,
            l.kv_heads,
            l.head_dim,
            span,
        ),
{
    let shape = vec![span.seq_len, l.kv_heads, l.head_dim];
    assert(shape@ =~= seq![span.seq_len, l.kv_heads, l.head_dim]);
    let v = g.linear(h, w);
    let v = g.reshape(v, shape);
    let v = g.plain_norm(v, l.v_norm_eps);
    let v = g.swap_first(v);
    g.keep(v, li, Part::Values, l.kv_heads, l.head_dim, span)
}

fn rope_base(t: LayerType) -> (r: RopeBase)
    ensures
        r == base_of(t),
{
    match t {
        LayerType::Sliding => RopeBase::Sliding,
        LayerType::Full => RopeBase::Full,
    }
}

fn layer_mask(t: LayerType, p: Pass) -> (r: MaskKind)
    ensures
        r == mask_of(t, p),
{
    match t {
        LayerType::Sliding => p.sliding_mask,
        LayerType::Full => p.full_mask,
    }
}

fn push_attention<'a, A>(
    g: &mut Graph<'a, A>,
    h: usize,
    l: &'a Gemma4Layer<A>,
    k: usize,
    v: usize,
    p: Pass,
) -> (r: usize)
    requires
        old(g).well_formed(),
        old(g).holds(h),
        old(g).holds(k),
        old(g).holds(v),
        i32::MIN <= p.n_heads * l.head_dim <= i32::MAX,
    ensures
        final(g).extends(*old(g)),
        final(g).holds(r),
        final(g).at(r) == attention_term(
            old(g).at(h),
            *l,
            KvTerms { k: old(g).at(k), v: old(g).at(v) },
            p,
        ),
{
    let shape = vec![p.span.seq_len, p.n_heads * l.head_dim];
    assert(shape@ =~= seq![p.span.seq_len, (p.n_heads * l.head_dim) as i32]);
    let q = push_turned(g, h, &l.q_proj, &l.q_norm, turn_of(p.n_heads, l, p.span));
    let q = g.batch(q);
    let kb = g.batch(k);
    let vb = g.batch(v);
    let a = g.attend(
        q,
        kb,
        vb,
        Factor::Given(F32 { bits: sampler::ONE_BITS }),
        layer_mask(l.layer_type, p),
    );
    let a = g.swap_middle(a);
    let a = g.reshape(a, shape);
    g.linear(a, &l.o_proj)
}

fn push_mlp<'a, A>(g: &mut Graph<'a, A>, x: usize, l: &'a Gemma4Layer<A>) -> (r: usize)
    requires
        old(g).well_formed(),
        old(g).holds(x),
    ensures
        final(g).extends(*old(g)),
        final(g).holds(r),
        final(g).at(r) == mlp_term(old(g).at(x), *l),
{
    let h = g.norm(x, &l.pre_ffn_norm);
    let down = push_gated(g, h, Activation::Gelu, &l.gate_proj, &l.up_proj, &l.down_proj);
    g.norm(down, &l.post_ffn_norm)
}

fn push_own_input<'a, A>(
    g: &mut Graph<'a, A>,
    x: usize,
    inputs: usize,
    l: &'a Gemma4Layer<A>,
    li: usize,
) -> (r: usize)
    requires
        old(g).well_formed(),
        old(g).holds(x),
        old(g).holds(inputs),
    ensures
        final(g).extends(*old(g)),
        final(g).holds(r),
        final(g).at(r) == own_input_term(old(g).at(x), old(g).at(inputs), *l, li),
{
    let own = g.slot(inputs, li as i32);
    let gate = g.linear(x, &l.per_layer_input_gate);
    let gate = g.gelu(gate);
    let gate = g.multiply(gate, own);
    let gate = g.linear(gate, &l.per_layer_projection);
    g.norm(gate, &l.post_per_layer_input_norm)
}

fn push_merged<'a, A>(
    g: &mut Graph<'a, A>,
    x: usize,
    attn: usize,
    inputs: usize,
    l: &'a Gemma4Layer<A>,
    li: usize,
) -> (r: usize)
    requires
        old(g).well_formed(),
        old(g).holds(x),
        old(g).holds(attn),
        old(g).holds(inputs),
    ensures
        final(g).extends(*old(g)),
        final(g).holds(r),
        final(g).at(r) == merged(old(g).at(x), old(g).at(attn), old(g).at(inputs), *l, li),
{
    let h = g.norm(attn, &l.post_attn_norm);
    let x = g.add_up(x, h);
    let m = push_mlp(g, x, l);
    let x = g.add_up(x, m);
    let own = push_own_input(g, x, inputs, l, li);
    let x = g.add_up(x, own);
    g.scale_by(x, &l.layer_scalar)
}

fn push_inputs<'a, A>(
    g: &mut Graph<'a, A>,
    model: &'a Gemma4<A>,
    tokens: usize,
    x: usize,
    p: Pass,
) -> (r: usize)
    requires
        old(g).well_formed(),
        old(g).holds(tokens),
        old(g).holds(x),
    ensures
        final(g).extends(*old(g)),
        final(g).holds(r),
        final(g).at(r) == inputs_term(*model, old(g).at(tokens), old(g).at(x), p),
{
    let shape = vec![p.span.seq_len, p.layers, p.width];
    let shape2 = vec![p.span.seq_len, p.layers, p.width];
    assert(shape@ =~= seq![p.span.seq_len, p.layers, p.width]);
    assert(shape2@ =~= seq![p.span.seq_len, p.layers, p.width]);
    let by_token = g.lookup(&model.embed_per_layer, tokens);
    let by_token = g.scale(by_token, Factor::Sqrt(model.hidden_per_layer));
    let by_token = g.reshape(by_token, shape);
    let projected = g.linear(x, &model.per_layer_model_projection);
    let projected = g.scale(projected, Factor::MinusHalfPower(model.cfg.hidden_size));
    let projected = g.reshape(projected, shape2);
    let projected = g.norm(projected, &model.per_layer_projection_norm);
    let both = g.add_up(projected, by_token);
    g.scale(both, Factor::MinusHalfPower(2))
}

/// Where the keys and values of the layers are among the steps.
pub open spec fn kv_steps<'a, A>(g: Graph<'a, A>, kvs: Seq<(usize, usize)>) -> Seq<KvTerms<A>> {
    Seq::new(kvs.len(), |i: int| KvTerms { k: g.at(kvs[i].0), v: g.at(kvs[i].1) })
}

fn push_kv<'a, A>(
    g: &mut Graph<'a, A>,
    h: usize,
    l: &'a Gemma4Layer<A>,
    li: usize,
    kvs: &Vec<(usize, usize)>,
    p: Pass,
) -> (r: Result<(usize, usize), Error>)
    requires
        old(g).well_formed(),
        old(g).holds(h),
        kvs@.len() == li,
        forall|i: int| 0 <= i < kvs@.len() ==> old(g).holds((#[trigger] kvs@[i]).0),
        forall|i: int| 0 <= i < kvs@.len() ==> old(g).holds((#[trigger] kvs@[i]).1),
    ensures
        final(g).extends(*old(g)),
        match r {
            Ok(kv) => l.kv_defect(li as nat) is None && final(g).holds(kv.0) && final(g).holds(
                kv.1,
            ) && (KvTerms { k: final(g).at(kv.0), v: final(g).at(kv.1) }) == kv_term(
                old(g).at(h),
                *l,
                li,
                kv_steps(*old(g), kvs@),
                p,
            ),
            Err(e) => l.kv_defect(li as nat) == Some(e@),
        },
{
    match l.kv_source(li) {
        Ok(KvSource::Own { k_proj, v_proj, k_norm }) => {
            let k = push_turned(g, h, k_proj, k_norm, turn_of(l.kv_heads, l, p.span));
            let k = g.keep(k, li, Part::Keys, l.kv_heads, l.head_dim, p.span);
            let v = push_values(g, h, v_proj, l, li, p.span);
            Ok((k, v))
        },
        Ok(KvSource::Shared(j)) => Ok((kvs[j].0, kvs[j].1)),
        Err(e) => Err(e),
    }
}

impl<A> Gemma4<A> {
    /// Whether the widths of all layers fit the array library.
    pub fn check_fits(&self) -> (r: bool)
        ensures
            r == layers_fit(*self),
    {
        if self.cfg.num_attention_heads > 0x7fff_ffff {
            return false;
        }
        let heads: i64 = self.cfg.num_attention_heads as i64;
        let mut i: usize = 0;
        while i < self.layers.len()
            invariant
                i <= self.layers@.len(),
                heads == self.cfg.num_attention_heads,
                0 <= heads <= 0x7fff_ffff,
                forall|j: int|
                    0 <= j < i ==> i32::MIN <= self.cfg.num_attention_heads
                        * #[trigger] self.layers@[j].head_dim <= i32::MAX,
            decreases self.layers@.len() - i,
        {
            let dim: i64 = self.layers[i].head_dim as i64;
            proof {
                assert(-0x4000_0000_0000_0000 <= heads * dim <= 0x4000_0000_0000_0000)
                    by (nonlinear_arith)
                    requires
                        0 <= heads <= 0x7fff_ffff,
                        -0x8000_0000 <= dim <= 0x7fff_ffff,
                ;
            }
            let width: i64 = heads * dim;
            if width < -0x8000_0000 || width > 0x7fff_ffff {
                assert(!(i32::MIN <= self.cfg.num_attention_heads
                    * self.layers@[i as int].head_dim <= i32::MAX));
                return false;
            }
            i = i + 1;
        }
        true
    }

    /// The steps of a planned forward pass, and the one that gives the logits
    /// after the last token. It fails where a layer has no keys and values to
    /// use.
    pub fn forward<'a>(&'a self, plan: &ForwardPlan) -> (r: Result<(Graph<'a, A>, usize), Error>)
        requires
            layers_fit(*self),
        ensures
            is_forward(r, *self, *plan, false),
    {
        self.forward_internal(plan, false)
    }

    /// The steps of a planned forward pass, and the one that gives the logits
    /// after every token. It fails where a layer has no keys and values to use.
    pub fn forward_multi<'a>(&'a self, plan: &ForwardPlan) -> (r: Result<
        (Graph<'a, A>, usize),
        Error,
    >)
        requires
            layers_fit(*self),
        ensures
            is_forward(r, *self, *plan, true),
    {
        self.forward_internal(plan, true)
    }

    fn forward_internal<'a>(&'a self, plan: &ForwardPlan, all: bool) -> (r: Result<
        (Graph<'a, A>, usize),
        Error,
    >)
        requires
            layers_fit(*self),
        ensures
            is_forward(r, *self, *plan, all),
    {
        let p = Pass {
            span: plan.span,
            n_heads: self.cfg.num_attention_heads as i32,
            layers: plan.per_layer_shape[1],
            width: plan.per_layer_shape[2],
            full_mask: if plan.full_mask.is_some() {
                MaskKind::Causal
            } else {
                MaskKind::Absent
            },
            sliding_mask: if plan.sliding_mask.is_some() {
                MaskKind::Sliding
            } else {
                MaskKind::Absent
            },
        };
        let ids = graph::copy_ids(&plan.token_ids);
        let mut g: Graph<'a, A> = Graph::new();
        let tokens = g.tokens(ids);
        let x = g.lookup(&self.embed, tokens);
        let mut x = g.scale(x, Factor::Sqrt(self.cfg.hidden_size));
        let inputs = push_inputs(&mut g, self, tokens, x, p);
        let ghost start = g.at(x);
        let ghost own = g.at(inputs);
        let mut kvs: Vec<(usize, usize)> = Vec::new();
        let mut i: usize = 0;
        assert(kv_steps(g, kvs@) =~= Seq::<KvTerms<A>>::empty());
        while i < self.layers.len()
            invariant
                i <= self.layers@.len(),
                layers_fit(*self),
                p == pass_of(*self, *plan),
                g.well_formed(),
                g.holds(x),
                g.holds(inputs),
                g.at(inputs) == own,
                kvs@.len() == i,
                forall|j: int| 0 <= j < kvs@.len() ==> g.holds((#[trigger] kvs@[j]).0),
                forall|j: int| 0 <= j < kvs@.len() ==> g.holds((#[trigger] kvs@[j]).1),
                first_defect(self.layers@, i as nat) is None,
                g.at(x) == layers_stream(start, own, self.layers@, p, i as nat).x,
                kv_steps(g, kvs@) == layers_stream(start, own, self.layers@, p, i as nat).kvs,
            decreases self.layers@.len() - i,
        {
            let l = &self.layers[i];
            let ghost g0 = g;
            let h = g.norm(x, &l.input_norm);
            let ghost g1 = g;
            assert(kv_steps(g1, kvs@) =~= kv_steps(g0, kvs@));
            let kv = match push_kv(&mut g, h, l, i, &kvs, p) {
                Ok(kv) => kv,
                Err(e) => {
                    proof {
                        lemma_defect_stays(
                            self.layers@,
                            (i + 1) as nat,
                            self.layers@.len(),
                        );
                    }
                    return Err(e);
                },
            };
            let a = push_attention(&mut g, h, l, kv.0, kv.1, p);
            x = push_merged(&mut g, x, a, inputs, l, i);
            kvs.push(kv);
            proof {
                let before = layers_stream(start, own, self.layers@, p, i as nat);
                assert(kv_steps(g, kvs@) =~= before.kvs.push(
                    KvTerms { k: g.at(kv.0), v: g.at(kv.1) },
                ));
            }
            i = i + 1;
        }
        let x = g.norm(x, &self.norm);
        let rows = if all {
            x
        } else {
            let last = g.row(x, plan.last_row);
            g.batch(last)
        };
        let logits = g.linear(rows, &self.embed);
        let logits = match self.cfg.final_logit_softcapping {
            Some(cap) => g.softcap(logits, cap),
            None => logits,
        };
        let out = if all {
            logits
        } else {
            g.row(logits, 0)
        };
        Ok((g, out))
    }
}

/// Whether the weights of a layer have the shapes that a pass needs, around a
/// residual stream of width `hidden`.
pub open spec fn layer_shaped<A>(l: Gemma4Layer<A>, s: Shaping<A>, p: Pass, hidden: int) -> bool {
    let inner = s.rows(l.gate_proj);
    &&& 0 < l.kv_heads
    &&& p.n_heads % l.kv_heads == 0
    &&& i32::MIN <= p.n_heads * l.head_dim <= i32::MAX
    &&& s.is_norm(l.input_norm, hidden)
    &&& s.is_matrix(l.q_proj, p.n_heads * l.head_dim, hidden)
    &&& s.is_norm(l.q_norm, l.head_dim as int)
    &&& l.has_kv ==> {
        &&& s.is_matrix(l.k_proj.unwrap(), l.kv_heads * l.head_dim, hidden)
        &&& s.is_matrix(l.v_proj.unwrap(), l.kv_heads * l.head_dim, hidden)
        &&& s.is_norm(l.k_norm.unwrap(), l.head_dim as int)
    }
    &&& s.is_matrix(l.o_proj, hidden, p.n_heads * l.head_dim)
    &&& s.is_norm(l.post_attn_norm, hidden)
    &&& s.is_norm(l.pre_ffn_norm, hidden)
    &&& s.is_norm(l.post_ffn_norm, hidden)
    &&& s.is_matrix(l.gate_proj, inner, hidden)
    &&& s.is_matrix(l.up_proj, inner, hidden)
    &&& s.is_matrix(l.down_proj, hidden, inner)
    &&& s.is_matrix(l.per_layer_input_gate, p.width as int, hidden)
    &&& s.is_matrix(l.per_layer_projection, hidden, p.width as int)
    &&& s.is_norm(l.post_per_layer_input_norm, hidden)
    &&& graph::size((s.weights)(l.layer_scalar)) == 1
}

/// Whether a layer that shares keys and values does so with an earlier one that
/// has as many key/value heads, as wide.
pub open spec fn shares_alike<A>(layers: Seq<Gemma4Layer<A>>, i: int) -> bool {
    !layers[i].has_kv ==> {
        &&& layers[i].previous_kv < i
        &&& layers[layers[i].previous_kv as int].kv_heads == layers[i].kv_heads
        &&& layers[layers[i].previous_kv as int].head_dim == layers[i].head_dim
    }
}

/// Whether the weights of a model have the shapes that a pass needs.
pub open spec fn model_shaped<A>(
    model: Gemma4<A>,
    s: Shaping<A>,
    p: Pass,
    hidden: int,
    vocab: int,
) -> bool {
    &&& s.is_matrix(model.embed, vocab, hidden)
    &&& s.is_matrix(
        model.embed_per_layer,
        s.rows(model.embed_per_layer),
        p.layers * p.width,
    )
    &&& s.is_matrix(model.per_layer_model_projection, p.layers * p.width, hidden)
    &&& s.is_norm(model.per_layer_projection_norm, p.width as int)
    &&& model.layers@.len() == p.layers
    &&& forall|i: int|
        0 <= i < model.layers@.len() ==> layer_shaped(#[trigger] model.layers@[i], s, p, hidden)
    &&& forall|i: int|
        0 <= i < model.layers@.len() ==> #[trigger] shares_alike(model.layers@, i)
    &&& s.is_norm(model.norm, hidden)
}

/// The shape of the keys or values that a layer uses.
pub open spec fn kv_shape<A>(l: Gemma4Layer<A>, p: Pass) -> Seq<int> {
    seq![l.kv_heads as int, p.span.new_end as int, l.head_dim as int]
}

pub(crate) proof fn lemma_kv<A>(
    s: Shaping<A>,
    h: Term<A>,
    layers: Seq<Gemma4Layer<A>>,
    li: usize,
    kvs: Seq<KvTerms<A>>,
    p: Pass,
    hidden: int,
)
    requires
        0 <= li < layers.len(),
        layer_shaped(layers[li as int], s, p, hidden),
        shares_alike(layers, li as int),
        s.shape(h) == Some(seq![p.span.seq_len as int, hidden]),
        kvs.len() == li,
        forall|j: int|
            0 <= j < li ==> s.shape((#[trigger] kvs[j]).k) == Some(kv_shape(layers[j], p))
                && s.shape(kvs[j].v) == Some(kv_shape(layers[j], p)),
    ensures
        ({
            let kv = kv_term(h, layers[li as int], li, kvs, p);
            s.shape(kv.k) == Some(kv_shape(layers[li as int], p)) && s.shape(kv.v) == Some(
                kv_shape(layers[li as int], p),
            )
        }),
{
    let l = layers[li as int];
    let n = p.span.seq_len as int;
    if l.has_kv {
        lemma_turned(
            s,
            h,
            l.k_proj.unwrap(),
            l.k_norm.unwrap(),
            turn(l.kv_heads, l, p.span),
            hidden,
        );
        let v0 = h.linear(l.v_proj.unwrap());
        graph::lemma_linear(s, h, l.v_proj.unwrap(), n, l.kv_heads * l.head_dim, hidden);
        graph::lemma_reshape_to_heads(s, v0, p.span.seq_len, l.kv_heads, l.head_dim);
        let v1 = v0.reshape(seq![p.span.seq_len, l.kv_heads, l.head_dim]);
        let v2 = v1.plain_norm(l.v_norm_eps);
        assert(s.shape(v2) == s.shape(v1));
        let v3 = v2.swap_first();
        assert(s.shape(v3) == Some(seq![l.kv_heads as int, n, l.head_dim as int]));
    } else {
        assert(kv_shape(layers[l.previous_kv as int], p) =~= kv_shape(l, p));
        assert(s.shape(kvs[l.previous_kv as int].k) == Some(kv_shape(l, p)));
    }
}

pub(crate) proof fn lemma_attention<A>(
    s: Shaping<A>,
    h: Term<A>,
    l: Gemma4Layer<A>,
    kv: KvTerms<A>,
    p: Pass,
    hidden: int,
)
    requires
        layer_shaped(l, s, p, hidden),
        s.mask == seq![p.span.seq_len as int, p.span.new_end as int],
        s.shape(h) == Some(seq![p.span.seq_len as int, hidden]),
        s.shape(kv.k) == Some(kv_shape(l, p)),
        s.shape(kv.v) == Some(kv_shape(l, p)),
    ensures
        s.shape(attention_term(h, l, kv, p)) == Some(seq![p.span.seq_len as int, hidden]),
{
    let n = p.span.seq_len as int;
    let m = p.span.new_end as int;
    let dim = l.head_dim as int;
    let q = turned(h, l.q_proj, l.q_norm, turn(p.n_heads, l, p.span));
    lemma_turned(s, h, l.q_proj, l.q_norm, turn(p.n_heads, l, p.span), hidden);
    graph::lemma_batch(s, q, p.n_heads as int, n, dim);
    graph::lemma_batch(s, kv.k, l.kv_heads as int, m, dim);
    graph::lemma_batch(s, kv.v, l.kv_heads as int, m, dim);
    let a = q.batch().attend(
        kv.k.batch(),
        kv.v.batch(),
        Factor::Given(F32 { bits: sampler::ONE_BITS }),
        mask_of(l.layer_type, p),
    );
    assert(s.shape(a) == Some(seq![1int, p.n_heads as int, n, dim]));
    let q_dim = (p.n_heads * l.head_dim) as i32;
    graph::lemma_heads_back(s, a, p.span.seq_len, p.n_heads, l.head_dim, q_dim);
    let c = a.swap_middle().reshape(seq![p.span.seq_len, q_dim]);
    graph::lemma_linear(s, c, l.o_proj, n, hidden, p.n_heads * l.head_dim);
}

pub(crate) proof fn lemma_merged<A>(
    s: Shaping<A>,
    x: Term<A>,
    attn: Term<A>,
    inputs: Term<A>,
    l: Gemma4Layer<A>,
    li: usize,
    p: Pass,
    hidden: int,
)
    requires
        layer_shaped(l, s, p, hidden),
        li < p.layers,
        s.shape(x) == Some(seq![p.span.seq_len as int, hidden]),
        s.shape(attn) == Some(seq![p.span.seq_len as int, hidden]),
        s.shape(inputs) == Some(seq![p.span.seq_len as int, p.layers as int, p.width as int]),
    ensures
        s.shape(merged(x, attn, inputs, l, li)) == Some(seq![p.span.seq_len as int, hidden]),
{
    let n = p.span.seq_len as int;
    let wide = Some(seq![n, hidden]);
    let inner = s.rows(l.gate_proj);
    let a = attn.norm(l.post_attn_norm);
    assert(s.shape(a) == wide);
    let x1 = x.plus(a);
    assert(s.shape(x1) == wide);
    let h = x1.norm(l.pre_ffn_norm);
    assert(s.shape(h) == wide);
    lemma_gated(s, h, Activation::Gelu, l.gate_proj, l.up_proj, l.down_proj, n, hidden, inner);
    let m = gated(h, Activation::Gelu, l.gate_proj, l.up_proj, l.down_proj).norm(l.post_ffn_norm);
    assert(s.shape(m) == wide);
    let x2 = x1.plus(m);
    assert(s.shape(x2) == wide);
    graph::lemma_linear(s, x2, l.per_layer_input_gate, n, p.width as int, hidden);
    let g1 = x2.linear(l.per_layer_input_gate).gelu();
    assert(s.shape(g1) == Some(seq![n, p.width as int]));
    let own = inputs.slot(li as i32);
    assert(s.shape(own) == Some(seq![n, p.width as int]));
    let g2 = g1.times(own);
    assert(s.shape(g2) == Some(seq![n, p.width as int]));
    graph::lemma_linear(s, g2, l.per_layer_projection, n, hidden, p.width as int);
    let g3 = g2.linear(l.per_layer_projection).norm(l.post_per_layer_input_norm);
    assert(s.shape(g3) == wide);
    let x3 = x2.plus(g3);
    assert(s.shape(x3) == wide);
}

pub(crate) proof fn lemma_inputs<A>(
    s: Shaping<A>,
    model: Gemma4<A>,
    t: Term<A>,
    x: Term<A>,
    p: Pass,
    hidden: int,
    vocab: int,
)
    requires
        model_shaped(model, s, p, hidden, vocab),
        s.shape(t) == Some(seq![p.span.seq_len as int]),
        s.shape(x) == Some(seq![p.span.seq_len as int, hidden]),
    ensures
        s.shape(inputs_term(model, t, x, p)) == Some(
            seq![p.span.seq_len as int, p.layers as int, p.width as int],
        ),
{
    let n = p.span.seq_len as int;
    let flat = Some(seq![n, p.layers * p.width]);
    let shape = seq![p.span.seq_len, p.layers, p.width];
    let a0 = Term::Lookup(model.embed_per_layer, Box::new(t));
    assert(s.shape(a0) == flat);
    let a = a0.scale(Factor::Sqrt(model.hidden_per_layer));
    assert(s.shape(a) == flat);
    graph::lemma_reshape_to_heads(s, a, p.span.seq_len, p.layers, p.width);
    graph::lemma_linear(s, x, model.per_layer_model_projection, n, p.layers * p.width, hidden);
    let b0 = x.linear(model.per_layer_model_projection);
    let b = b0.scale(Factor::MinusHalfPower(model.cfg.hidden_size));
    assert(s.shape(b) == flat);
    graph::lemma_reshape_to_heads(s, b, p.span.seq_len, p.layers, p.width);
    let c = b.reshape(shape).norm(model.per_layer_projection_norm);
    assert(s.shape(c) == s.shape(b.reshape(shape)));
    let d = c.plus(a.reshape(shape));
    assert(s.shape(d) == s.shape(c));
}

pub(crate) proof fn lemma_layers<A>(
    s: Shaping<A>,
    x: Term<A>,
    inputs: Term<A>,
    model: Gemma4<A>,
    p: Pass,
    hidden: int,
    vocab: int,
    k: nat,
)
    requires
        model_shaped(model, s, p, hidden, vocab),
        s.mask == seq![p.span.seq_len as int, p.span.new_end as int],
        s.shape(x) == Some(seq![p.span.seq_len as int, hidden]),
        s.shape(inputs) == Some(seq![p.span.seq_len as int, p.layers as int, p.width as int]),
        k <= model.layers@.len(),
    ensures
        ({
            let out = layers_stream(x, inputs, model.layers@, p, k);
            &&& s.shape(out.x) == Some(seq![p.span.seq_len as int, hidden])
            &&& out.kvs.len() == k
            &&& forall|j: int|
                0 <= j < k ==> s.shape((#[trigger] out.kvs[j]).k) == Some(
                    kv_shape(model.layers@[j], p),
                ) && s.shape(out.kvs[j].v) == Some(kv_shape(model.layers@[j], p))
        }),
    decreases k,
{
    if k > 0 {
        lemma_layers(s, x, inputs, model, p, hidden, vocab, (k - 1) as nat);
        let before = layers_stream(x, inputs, model.layers@, p, (k - 1) as nat);
        let li = (k - 1) as usize;
        let l = model.layers@[k - 1];
        assert(shares_alike(model.layers@, k - 1));
        let h = before.x.norm(l.input_norm);
        assert(s.shape(h) == Some(seq![p.span.seq_len as int, hidden]));
        lemma_kv(s, h, model.layers@, li, before.kvs, p, hidden);
        let kv = kv_term(h, l, li, before.kvs, p);
        lemma_attention(s, h, l, kv, p, hidden);
        lemma_merged(s, before.x, attention_term(h, l, kv, p), inputs, l, li, p, hidden);
    }
}

/// In a model whose weights have the right shapes, every step of a forward pass
/// is given arrays of shapes that it can take, whatever the number of tokens and
/// however many are cached; and the pass gives a row of logits for each token,
/// or for the last one.
pub proof fn law_every_step_fits<A>(
    model: Gemma4<A>,
    s: Shaping<A>,
    tokens: Seq<i32>,
    p: Pass,
    hidden: int,
    vocab: int,
)
    requires
        tokens.len() == p.span.seq_len,
        model_shaped(model, s, p, hidden, vocab),
        s.mask == seq![p.span.seq_len as int, p.span.new_end as int],
    ensures
        s.shape(forward_term(model, tokens, p, (p.span.seq_len - 1) as i32, true)) == Some(
            seq![p.span.seq_len as int, vocab],
        ),
        p.span.seq_len > 0 ==> s.shape(
            forward_term(model, tokens, p, (p.span.seq_len - 1) as i32, false),
        ) == Some(seq![vocab]),
{
    let n = p.span.seq_len as int;
    let t = Term::Tokens(tokens);
    assert(s.shape(t) == Some(seq![n]));
    let x0 = Term::Lookup(model.embed, Box::new(t));
    assert(s.shape(x0) == Some(seq![n, hidden]));
    let x = x0.scale(Factor::Sqrt(model.cfg.hidden_size));
    assert(s.shape(x) == Some(seq![n, hidden]));
    lemma_inputs(s, model, t, x, p, hidden, vocab);
    let inputs = inputs_term(model, t, x, p);
    lemma_layers(s, x, inputs, model, p, hidden, vocab, model.layers@.len());
    let y = hidden_term(model, tokens, p);
    assert(s.shape(y) == Some(seq![n, hidden]));
    graph::lemma_linear(s, y, model.embed, n, vocab, hidden);
    if n > 0 {
        let last = (p.span.seq_len - 1) as i32;
        let r0 = y.row(last);
        assert(s.shape(r0) == Some(seq![hidden]));
        let r = r0.batch();
        assert(seq![1int] + seq![hidden] =~= seq![1int, hidden]);
        assert(s.shape(r) == Some(seq![1int, hidden]));
        graph::lemma_linear(s, r, model.embed, 1, vocab, hidden);
        assert(s.shape(head_term(model, r)) == Some(seq![1int, vocab]));
    }
}

/// In a loaded model, layers that share keys and values do so with layers that
/// have as many key/value heads, as wide.
pub proof fn law_loaded_layers_share_alike<A>(
    model: Gemma4<A>,
    m: Map<Seq<char>, crate::tensors::Tensor<A>>,
    cfg: ModelConfig,
    i: int,
)
    requires
        gemma::model_drawn(m, cfg) is Ok,
        gemma::is_model_of(model, m, cfg),
        0 <= i < model.layers@.len(),
    ensures
        shares_alike(model.layers@, i),
{
    gemma::law_loaded_layers_have_keys_and_values(model, m, cfg, i);
    reveal(gemma::layer_of);
    assert(model.layers@[i] == gemma::layer_of(m, cfg, i as nat));
    if !model.layers@[i].has_kv {
        let j = model.layers@[i].previous_kv;
        assert(model.layers@[j as int] == gemma::layer_of(m, cfg, j as nat));
    }
}

/// A forward pass fails at the first layer that has no keys and values, and only where
/// there is one: a layer of its own that lacks a projection or a normalisation, or one that
/// shares with none before it.
pub proof fn law_which_layer_fails<A>(layers: Seq<Gemma4Layer<A>>, n: nat)
    requires
        n <= layers.len(),
    ensures
        match first_defect(layers, n) {
            None => forall|i: int|
                0 <= i < n ==> {
                    let l = #[trigger] layers[i];
                    if l.has_kv {
                        l.k_proj is Some && l.v_proj is Some && l.k_norm is Some
                    } else {
                        l.previous_kv < i
                    }
                },
            Some(e) => exists|i: int|
                0 <= i < n && (#[trigger] layers[i]).kv_defect(i as nat) == Some(e) && forall|
                    j: int,
                |
                    0 <= j < i ==> (#[trigger] layers[j]).kv_defect(j as nat) is None,
        },
    decreases n,
{
    if n > 0 {
        law_which_layer_fails(layers, (n - 1) as nat);
        if first_defect(layers, (n - 1) as nat) is None {
            assert forall|j: int| 0 <= j < n - 1 implies (#[trigger] layers[j]).kv_defect(
                j as nat,
            ) is None by {}
        }
    }
}

} // verus!
