//! The forward pass of Granite, one token at a time.

use vstd::prelude::*;

use crate::attention;
use crate::cache;
use crate::cache::{place_tokens, Span};
use crate::error::Error;
use crate::granite::{
    is_token_by_token, AttentionBlock, Granite, GraniteLayer, KvCache, LayerBlock, MambaMixer,
    MambaSizes, Moe, SharedMlp, TokenByToken,
};
use crate::graph;
use crate::graph::{Factor, Graph, MaskKind, Part, Shaping, Term};
use crate::weights::Quantized;

verus! {

/// The numbers that attention goes by.
#[derive(Debug, Clone, Copy, PartialEq, Eq, Structural)]
pub struct Pass {
    pub n_heads: i32,
    pub kv_heads: i32,
    pub head_dim: i32,
    /// `n_heads * head_dim`.
    pub q_dim: i32,
    /// Where the token's keys and values are kept.
    pub span: Span,
    pub scale: Factor,
}

/// The queries, keys or values of `heads` heads.
pub open spec fn heads_term<A>(h: Term<A>, w: Quantized<A>, heads: i32, dim: i32) -> Term<A> {
    h.linear(w).reshape(seq![1i32, heads, dim]).swap_first()
}

/// What attention gives.
pub open spec fn attention_term<A>(
    h: Term<A>,
    b: AttentionBlock<A>,
    li: usize,
    p: Pass,
) -> Term<A> {
    let k = heads_term(h, b.k_proj, p.kv_heads, p.head_dim).keep(
        li,
        Part::Keys,
        p.kv_heads,
        p.head_dim,
        p.span,
    );
    let v = heads_term(h, b.v_proj, p.kv_heads, p.head_dim).keep(
        li,
        Part::Values,
        p.kv_heads,
        p.head_dim,
        p.span,
    );
    heads_term(h, b.q_proj, p.n_heads, p.head_dim).batch().attend(
        k.batch(),
        v.batch(),
        p.scale,
        MaskKind::Absent,
    ).swap_middle().reshape(seq![1i32, p.q_dim]).linear(b.o_proj)
}

/// Where the input projection of a Mamba block is cut.
pub open spec fn input_cuts(s: MambaSizes) -> Seq<i32> {
    seq![s.intermediate, (s.intermediate + s.conv_dim) as i32]
}

/// Where the result of a Mamba block's convolution is cut.
pub open spec fn conv_cuts(s: MambaSizes) -> Seq<i32> {
    seq![s.intermediate, (s.intermediate + s.state_size) as i32]
}

/// What the convolution of a Mamba block gives.
pub open spec fn conv_term<A>(x: Term<A>, m: MambaMixer<A>, li: usize) -> Term<A> {
    if m.conv_bias is Some {
        x.batch().reshape(seq![m.sizes.conv_dim]).conv_fused(li, m).reshape(
            seq![1i32, m.sizes.conv_dim],
        )
    } else {
        x.batch().conv_plain(li, m)
    }
}

/// What the recurrent update of a Mamba block gives, from the result of its
/// convolution and the time steps.
pub open spec fn ssm_term<A>(conv: Term<A>, dt: Term<A>, m: MambaMixer<A>, li: usize) -> Term<A> {
    let s = m.sizes;
    let hidden = conv.piece(conv_cuts(s), 0).reshape(seq![s.num_heads, s.head_dim]);
    let b = conv.piece(conv_cuts(s), 1).reshape(seq![s.state_size]);
    let c = conv.piece(conv_cuts(s), 2).reshape(seq![s.state_size]);
    let dt = dt.timestep(m.dt_bias).reshape(seq![s.num_heads]);
    hidden.ssm_update(b, c, dt, li, m).reshape(seq![1i32, s.intermediate])
}

/// What a Mamba block gives.
pub open spec fn mamba_term<A>(h: Term<A>, m: MambaMixer<A>, li: usize) -> Term<A> {
    let projected = h.linear(m.in_proj);
    let conv = conv_term(projected.piece(input_cuts(m.sizes), 1), m, li);
    let y = ssm_term(conv, projected.piece(input_cuts(m.sizes), 2), m, li);
    y.times(projected.piece(input_cuts(m.sizes), 0).silu()).norm(m.norm).linear(m.out_proj)
}

/// Two halves of an array, the first through the sigmoid linear unit, number by
/// number.
pub open spec fn halves<A>(both: Term<A>, at: i32) -> Term<A> {
    both.piece(seq![at], 0).silu().times(both.piece(seq![at], 1))
}

/// What the experts give that the router prefers, each by its share.
pub open spec fn moe_term<A>(x: Term<A>, moe: Moe<A>, li: usize) -> Term<A> {
    let logits = x.linear(moe.router);
    let indices = logits.top_indices((moe.num_experts - moe.top_k) as i32);
    let shares = logits.take_along(indices).softmax();
    let glu = moe.switch_mlp;
    let both = x.spread().expert_pair(li, glu.gate_proj, glu.up_proj, indices);
    let out = halves(both, glu.hidden).experts(glu.down_proj, indices).drop_axis();
    out.weigh(shares.last_axis()).sum_rows()
}

/// What the shared feed-forward network gives.
pub open spec fn shared_term<A>(x: Term<A>, mlp: SharedMlp<A>) -> Term<A> {
    halves(x.linear(mlp.input), mlp.hidden).linear(mlp.output)
}

/// What a layer's block gives.
pub open spec fn block_term<A>(h: Term<A>, b: LayerBlock<A>, li: usize, p: Pass) -> Term<A> {
    match b {
        LayerBlock::Mamba(m) => mamba_term(h, m, li),
        LayerBlock::Attention(a) => attention_term(h, a, li, p),
    }
}

/// The residual stream behind a layer.
pub open spec fn layer_term<A>(
    x: Term<A>,
    l: GraniteLayer<A>,
    li: usize,
    p: Pass,
    residual: Factor,
) -> Term<A> {
    let x = x.plus(block_term(x.norm(l.input_norm), l.block, li, p).scale(residual));
    let n = x.norm(l.post_norm);
    x.plus(moe_term(n, l.moe, li).plus(shared_term(n, l.shared_mlp)).scale(residual))
}

/// The residual stream behind the first `n` layers.
pub open spec fn layers_term<A>(
    x: Term<A>,
    layers: Seq<GraniteLayer<A>>,
    p: Pass,
    residual: Factor,
    n: nat,
) -> Term<A>
    decreases n,
{
    if n == 0 {
        x
    } else {
        layer_term(
            layers_term(x, layers, p, residual, (n - 1) as nat),
            layers[n - 1],
            (n - 1) as usize,
            p,
            residual,
        )
    }
}

/// The logits after a token.
pub open spec fn forward_term<A>(model: Granite<A>, token: i32, p: Pass) -> Term<A> {
    let x = Term::Lookup(model.embed, Box::new(Term::Tokens(seq![token]))).scale(
        Factor::Given(model.cfg.embedding_multiplier),
    );
    layers_term(
        x,
        model.layers@,
        p,
        Factor::Given(model.cfg.residual_multiplier),
        model.layers@.len(),
    ).norm(model.norm).linear(model.embed).scale(
        Factor::Inverse(model.cfg.logits_scaling),
    ).row(0)
}

/// Whether a layer has an attention block.
pub open spec fn attends<A>(layers: Seq<GraniteLayer<A>>) -> bool {
    exists|i: int| 0 <= i < layers.len() && (#[trigger] layers[i]).block is Attention
}

/// The numbers of a pass over the token behind `cached` others.
pub open spec fn pass_of<A>(model: Granite<A>, cached: int) -> Pass {
    Pass {
        n_heads: model.cfg.num_attention_heads as i32,
        kv_heads: model.cfg.kv_heads_spec() as i32,
        head_dim: model.cfg.per_head_dim_spec() as i32,
        q_dim: (model.cfg.num_attention_heads * model.cfg.per_head_dim_spec()) as i32,
        span: Span { seq_len: 1, offset: cached as i32, new_end: (cached + 1) as i32 },
        scale: Factor::Given(model.cfg.attention_multiplier),
    }
}

/// The logits after each of `tokens`, behind `cached` others.
pub open spec fn steps_of<A>(model: Granite<A>, tokens: Seq<i32>, cached: int) -> Seq<Term<A>> {
    Seq::new(tokens.len(), |i: int| forward_term(model, tokens[i], pass_of(model, cached + i)))
}

/// The logits that a pass over several tokens gives, behind `cached` others: after
/// each of them, or after the last one only.
pub open spec fn logits_of<'a, A>(pass: TokenByToken<'a, A>, cached: int) -> Seq<Term<A>> {
    let steps = steps_of(*pass.model, pass.tokens@, cached);
    if pass.every {
        steps
    } else {
        seq![steps.last()]
    }
}

/// A pass over `a` and `b` is a pass over `a`, then one over `b` behind it.
pub proof fn law_passes_concatenate<A>(
    model: Granite<A>,
    a: Seq<i32>,
    b: Seq<i32>,
    cached: int,
)
    ensures
        steps_of(model, a + b, cached) == steps_of(model, a, cached) + steps_of(
            model,
            b,
            cached + a.len(),
        ),
{
    assert(steps_of(model, a + b, cached) =~= steps_of(model, a, cached) + steps_of(
        model,
        b,
        cached + a.len(),
    ));
}

/// What a cache holds, and how many positions of it are in use.
pub struct Kept<A> {
    pub k: Seq<Option<A>>,
    pub v: Seq<Option<A>>,
    pub conv: Seq<Option<A>>,
    pub ssm: Seq<Option<A>>,
    pub seq_len: nat,
}

/// What a cache holds.
pub open spec fn kept<A>(c: KvCache<A>) -> Kept<A> {
    Kept { k: c.k@, v: c.v@, conv: c.conv@, ssm: c.ssm@, seq_len: c.seq_len as nat }
}

/// What a cache holds after a pass over `tokens`, one by one: the steps of each are
/// those for as many positions as are in use by then; carrying them out leaves what
/// `run` says of what the cache held and of the logits that they give; and one position
/// more is in use.
pub open spec fn walked<A>(
    model: Granite<A>,
    tokens: Seq<i32>,
    run: spec_fn(Kept<A>, Term<A>) -> Kept<A>,
    start: Kept<A>,
) -> Kept<A>
    decreases tokens.len(),
{
    if tokens.len() == 0 {
        start
    } else {
        let before = walked(model, tokens.drop_last(), run, start);
        let logits = forward_term(model, tokens.last(), pass_of(model, before.seq_len as int));
        Kept { seq_len: before.seq_len + 1, ..run(before, logits) }
    }
}

/// A pass uses one position for each token, and the steps for token `i` are those for
/// the positions in use after the tokens before it.
pub proof fn law_a_pass_uses_a_position_for_each_token<A>(
    model: Granite<A>,
    tokens: Seq<i32>,
    run: spec_fn(Kept<A>, Term<A>) -> Kept<A>,
    start: Kept<A>,
)
    ensures
        walked(model, tokens, run, start).seq_len == start.seq_len + tokens.len(),
        forall|i: int|
            0 <= i < tokens.len() ==> #[trigger] steps_of(
                model,
                tokens,
                start.seq_len as int,
            )[i] == forward_term(
                model,
                tokens[i],
                pass_of(model, walked(model, tokens.take(i), run, start).seq_len as int),
            ),
    decreases tokens.len(),
{
    if tokens.len() > 0 {
        law_a_pass_uses_a_position_for_each_token(model, tokens.drop_last(), run, start);
    }
    assert forall|i: int| 0 <= i < tokens.len() implies walked(
        model,
        #[trigger] tokens.take(i),
        run,
        start,
    ).seq_len == start.seq_len + i by {
        law_a_pass_uses_a_position_for_each_token(model, tokens.take(i), run, start);
    }
}

/// A pass that gives the logits after the last token only gives the last of those that
/// the other pass over the same tokens gives, and both leave the same in the cache.
pub proof fn law_both_passes_leave_the_same<'a, A>(
    one: TokenByToken<'a, A>,
    every: TokenByToken<'a, A>,
    model: Granite<A>,
    tokens: Seq<u32>,
    run: spec_fn(Kept<A>, Term<A>) -> Kept<A>,
    cache: KvCache<A>,
)
    requires
        is_token_by_token(Ok(one), model, tokens, false),
        is_token_by_token(Ok(every), model, tokens, true),
    ensures
        logits_of(one, cache.seq_len as int) == seq![
            logits_of(every, cache.seq_len as int).last(),
        ],
        walked(*one.model, one.tokens@, run, kept(cache)) == walked(
            *every.model,
            every.tokens@,
            run,
            kept(cache),
        ),
        walked(*one.model, one.tokens@, run, kept(cache)).seq_len == cache.seq_len + tokens.len(),
{
    law_a_pass_uses_a_position_for_each_token(model, one.tokens@, run, kept(cache));
}

/// A pass over `a` and `b` leaves in the cache what a pass over `a`, then one over `b`
/// leaves.
pub proof fn law_passes_leave_what_one_leaves<A>(
    model: Granite<A>,
    a: Seq<i32>,
    b: Seq<i32>,
    run: spec_fn(Kept<A>, Term<A>) -> Kept<A>,
    start: Kept<A>,
)
    ensures
        walked(model, a + b, run, start) == walked(model, b, run, walked(model, a, run, start)),
    decreases b.len(),
{
    if b.len() == 0 {
        assert(a + b =~= a);
    } else {
        assert((a + b).drop_last() =~= a + b.drop_last());
        law_passes_leave_what_one_leaves(model, a, b.drop_last(), run, start);
    }
}

/// Whether the numbers of a layer fit the array library, which counts in `i32`.
pub open spec fn layer_fits<A>(l: GraniteLayer<A>) -> bool {
    &&& i32::MIN <= l.moe.num_experts - l.moe.top_k <= i32::MAX
    &&& l.block matches LayerBlock::Mamba(m) ==> m.sizes.consistent()
}

/// Whether the numbers of a model fit the array library: those of its layers, and
/// those of its heads where a layer attends.
pub open spec fn model_fits<A>(model: Granite<A>) -> bool {
    &&& attends(model.layers@) ==> attention::sizes_fit(model.cfg)
    &&& forall|i: int| 0 <= i < model.layers@.len() ==> layer_fits(#[trigger] model.layers@[i])
}

/// Whether the numbers of a model fit the array library.
pub fn check_fits<A>(model: &Granite<A>) -> (r: bool)
    ensures
        r == model_fits(*model),
{
    let heads_ok = attention::check_sizes(&model.cfg);
    let mut i: usize = 0;
    while i < model.layers.len()
        invariant
            i <= model.layers@.len(),
            heads_ok == attention::sizes_fit(model.cfg),
            forall|j: int| 0 <= j < i ==> layer_fits(#[trigger] model.layers@[j]),
            heads_ok || forall|j: int|
                0 <= j < i ==> !((#[trigger] model.layers@[j]).block is Attention),
        decreases model.layers@.len() - i,
    {
        let l = &model.layers[i];
        let chosen: i64 = l.moe.num_experts as i64 - l.moe.top_k as i64;
        let sizes_ok = match &l.block {
            LayerBlock::Mamba(m) => m.sizes.check(),
            LayerBlock::Attention(_) => {
                if !heads_ok {
                    assert(attends(model.layers@)) by {
                        assert(model.layers@[i as int].block is Attention);
                    }
                    return false;
                }
                true
            },
        };
        if chosen < -0x8000_0000 || chosen > 0x7fff_ffff || !sizes_ok {
            assert(!layer_fits(model.layers@[i as int]));
            return false;
        }
        i = i + 1;
    }
    true
}

fn push_heads<'a, A>(
    g: &mut Graph<'a, A>,
    h: usize,
    w: &'a Quantized<A>,
    heads: i32,
    dim: i32,
) -> (r: usize)
    requires
        old(g).well_formed(),
        old(g).holds(h),
    ensures
        final(g).extends(*old(g)),
        final(g).holds(r),
        final(g).at(r) == heads_term(old(g).at(h), *w, heads, dim),
{
    let shape = vec![1, heads, dim];
    assert(shape@ =~= seq![1i32, heads, dim]);
    let x = g.linear(h, w);
    let x = g.reshape(x, shape);
    g.swap_first(x)
}

fn push_attention<'a, A>(
    g: &mut Graph<'a, A>,
    h: usize,
    b: &'a AttentionBlock<A>,
    li: usize,
    p: Pass,
) -> (r: usize)
    requires
        old(g).well_formed(),
        old(g).holds(h),
    ensures
        final(g).extends(*old(g)),
        final(g).holds(r),
        final(g).at(r) == attention_term(old(g).at(h), *b, li, p),
{
    let shape = vec![1, p.q_dim];
    assert(shape@ =~= seq![1i32, p.q_dim]);
    let q = push_heads(g, h, &b.q_proj, p.n_heads, p.head_dim);
    let k = push_heads(g, h, &b.k_proj, p.kv_heads, p.head_dim);
    let v = push_heads(g, h, &b.v_proj, p.kv_heads, p.head_dim);
    let k = g.keep(k, li, Part::Keys, p.kv_heads, p.head_dim, p.span);
    let v = g.keep(v, li, Part::Values, p.kv_heads, p.head_dim, p.span);
    let q = g.batch(q);
    let k = g.batch(k);
    let v = g.batch(v);
    let a = g.attend(q, k, v, p.scale, MaskKind::Absent);
    let a = g.swap_middle(a);
    let a = g.reshape(a, shape);
    g.linear(a, &b.o_proj)
}

fn push_conv<'a, A>(g: &mut Graph<'a, A>, x: usize, m: &'a MambaMixer<A>, li: usize) -> (r: usize)
    requires
        old(g).well_formed(),
        old(g).holds(x),
    ensures
        final(g).extends(*old(g)),
        final(g).holds(r),
        final(g).at(r) == conv_term(old(g).at(x), *m, li),
{
    let x = g.batch(x);
    if m.conv_bias.is_some() {
        let flat = vec![m.sizes.conv_dim];
        let row = vec![1, m.sizes.conv_dim];
        assert(flat@ =~= seq![m.sizes.conv_dim]);
        assert(row@ =~= seq![1i32, m.sizes.conv_dim]);
        let x = g.reshape(x, flat);
        let y = g.conv_fused(x, li, m);
        g.reshape(y, row)
    } else {
        g.conv_plain(x, li, m)
    }
}

fn cuts(a: [i32; 2]) -> (r: Vec<i32>)
    ensures
        r@ == a@,
{
    let r = vec![a[0], a[1]];
    assert(r@ =~= a@);
    r
}

fn push_ssm<'a, A>(
    g: &mut Graph<'a, A>,
    conv: usize,
    dt: usize,
    m: &'a MambaMixer<A>,
    li: usize,
) -> (r: usize)
    requires
        old(g).well_formed(),
        old(g).holds(conv),
        old(g).holds(dt),
        m.sizes.consistent(),
    ensures
        final(g).extends(*old(g)),
        final(g).holds(r),
        final(g).at(r) == ssm_term(old(g).at(conv), old(g).at(dt), *m, li),
{
    let s = m.sizes;
    let heads = vec![s.num_heads, s.head_dim];
    let state = vec![s.state_size];
    let state2 = vec![s.state_size];
    let steps = vec![s.num_heads];
    let row = vec![1, s.intermediate];
    assert(heads@ =~= seq![s.num_heads, s.head_dim]);
    assert(state@ =~= seq![s.state_size]);
    assert(state2@ =~= seq![s.state_size]);
    assert(steps@ =~= seq![s.num_heads]);
    assert(row@ =~= seq![1i32, s.intermediate]);
    let hidden = g.piece(conv, cuts(s.conv_splits()), 0);
    let hidden = g.reshape(hidden, heads);
    let b = g.piece(conv, cuts(s.conv_splits()), 1);
    let b = g.reshape(b, state);
    let c = g.piece(conv, cuts(s.conv_splits()), 2);
    let c = g.reshape(c, state2);
    let dt = g.timestep(dt, &m.dt_bias);
    let dt = g.reshape(dt, steps);
    let y = g.ssm_update(hidden, b, c, dt, li, m);
    g.reshape(y, row)
}

fn push_mamba<'a, A>(g: &mut Graph<'a, A>, h: usize, m: &'a MambaMixer<A>, li: usize) -> (r: usize)
    requires
        old(g).well_formed(),
        old(g).holds(h),
        m.sizes.consistent(),
    ensures
        final(g).extends(*old(g)),
        final(g).holds(r),
        final(g).at(r) == mamba_term(old(g).at(h), *m, li),
{
    let projected = g.linear(h, &m.in_proj);
    let gate = g.piece(projected, cuts(m.sizes.input_splits()), 0);
    let conv = g.piece(projected, cuts(m.sizes.input_splits()), 1);
    let dt = g.piece(projected, cuts(m.sizes.input_splits()), 2);
    let conv = push_conv(g, conv, m, li);
    let y = push_ssm(g, conv, dt, m, li);
    let gate = g.silu(gate);
    let y = g.multiply(y, gate);
    let y = g.norm(y, &m.norm);
    g.linear(y, &m.out_proj)
}

fn push_halves<'a, A>(g: &mut Graph<'a, A>, both: usize, at: i32) -> (r: usize)
    requires
        old(g).well_formed(),
        old(g).holds(both),
    ensures
        final(g).extends(*old(g)),
        final(g).holds(r),
        final(g).at(r) == halves(old(g).at(both), at),
{
    let one = vec![at];
    let two = vec![at];
    assert(one@ =~= seq![at]);
    assert(two@ =~= seq![at]);
    let a = g.piece(both, one, 0);
    let a = g.silu(a);
    let b = g.piece(both, two, 1);
    g.multiply(a, b)
}

fn push_moe<'a, A>(g: &mut Graph<'a, A>, x: usize, moe: &'a Moe<A>, li: usize) -> (r: usize)
    requires
        old(g).well_formed(),
        old(g).holds(x),
        i32::MIN <= moe.num_experts - moe.top_k <= i32::MAX,
    ensures
        final(g).extends(*old(g)),
        final(g).holds(r),
        final(g).at(r) == moe_term(old(g).at(x), *moe, li),
{
    let glu = &moe.switch_mlp;
    let logits = g.linear(x, &moe.router);
    let indices = g.top_indices(logits, moe.first_chosen());
    let shares = g.take_along(logits, indices);
    let shares = g.softmax(shares);
    let rows = g.spread(x);
    let both = g.expert_pair(rows, li, &glu.gate_proj, &glu.up_proj, indices);
    let hidden = push_halves(g, both, glu.hidden);
    let out = g.experts(hidden, &glu.down_proj, indices);
    let out = g.drop_axis(out);
    let shares = g.last_axis(shares);
    let out = g.weigh(out, shares);
    g.sum_rows(out)
}

fn push_shared<'a, A>(g: &mut Graph<'a, A>, x: usize, mlp: &'a SharedMlp<A>) -> (r: usize)
    requires
        old(g).well_formed(),
        old(g).holds(x),
    ensures
        final(g).extends(*old(g)),
        final(g).holds(r),
        final(g).at(r) == shared_term(old(g).at(x), *mlp),
{
    let both = g.linear(x, &mlp.input);
    let hidden = push_halves(g, both, mlp.hidden);
    g.linear(hidden, &mlp.output)
}

fn push_rest<'a, A>(
    g: &mut Graph<'a, A>,
    x: usize,
    block: usize,
    l: &'a GraniteLayer<A>,
    li: usize,
    residual: Factor,
) -> (r: usize)
    requires
        old(g).well_formed(),
        old(g).holds(x),
        old(g).holds(block),
        layer_fits(*l),
    ensures
        final(g).extends(*old(g)),
        final(g).holds(r),
        ({
            let y = old(g).at(x).plus(old(g).at(block).scale(residual));
            let n = y.norm(l.post_norm);
            final(g).at(r) == y.plus(
                moe_term(n, l.moe, li).plus(shared_term(n, l.shared_mlp)).scale(residual),
            )
        }),
{
    let b = g.scale(block, residual);
    let y = g.add_up(x, b);
    let n = g.norm(y, &l.post_norm);
    let moe = push_moe(g, n, &l.moe, li);
    let shared = push_shared(g, n, &l.shared_mlp);
    let mlp = g.add_up(moe, shared);
    let mlp = g.scale(mlp, residual);
    g.add_up(y, mlp)
}

impl<A> Granite<A> {
    /// The numbers that attention goes by, over the token behind `cached` others.
    fn pass_numbers(&self, cached: usize) -> (r: Pass)
        requires
            attention::sizes_fit(self.cfg),
            cached < i32::MAX,
        ensures
            r == pass_of(*self, cached as int),
    {
        Pass {
            n_heads: self.cfg.num_attention_heads as i32,
            kv_heads: self.cfg.kv_heads() as i32,
            head_dim: self.cfg.per_head_dim() as i32,
            q_dim: (self.cfg.num_attention_heads * self.cfg.per_head_dim()) as i32,
            span: Span { seq_len: 1, offset: cached as i32, new_end: cached as i32 + 1 },
            scale: Factor::Given(self.cfg.attention_multiplier),
        }
    }

    /// The steps of a forward pass over one token behind `cached` others, and
    /// the one that gives the logits. It fails where an attention block has no
    /// room for the token.
    pub fn forward_one<'a>(&'a self, token: i32, cached: usize) -> (r: Result<
        (Graph<'a, A>, usize),
        Error,
    >)
        requires
            model_fits(*self),
            cached < i32::MAX,
        ensures
            match r {
                Ok(f) => (cached < cache::KV_PREALLOC || !attends(self.layers@))
                    && f.0.well_formed() && f.0.holds(f.1) && f.0.at(f.1) == forward_term(
                    *self,
                    token,
                    pass_of(*self, cached as int),
                ),
                Err(e) => cached >= cache::KV_PREALLOC && attends(self.layers@) && e@
                    == cache::exhausted(cached + 1),
            },
    {
        let ghost p = pass_of(*self, cached as int);
        let residual = Factor::Given(self.cfg.residual_multiplier);
        let mut g: Graph<'a, A> = Graph::new();
        let ids = vec![token];
        assert(ids@ =~= seq![token]);
        let tokens = g.tokens(ids);
        let x = g.lookup(&self.embed, tokens);
        let mut x = g.scale(x, Factor::Given(self.cfg.embedding_multiplier));
        let ghost start = g.at(x);
        let mut i: usize = 0;
        while i < self.layers.len()
            invariant
                i <= self.layers@.len(),
                model_fits(*self),
                cached < i32::MAX,
                p == pass_of(*self, cached as int),
                g.well_formed(),
                g.holds(x),
                g.at(x) == layers_term(start, self.layers@, p, residual, i as nat),
                cached < cache::KV_PREALLOC || forall|j: int|
                    0 <= j < i ==> !((#[trigger] self.layers@[j]).block is Attention),
            decreases self.layers@.len() - i,
        {
            let l = &self.layers[i];
            assert(layer_fits(self.layers@[i as int]));
            let h = g.norm(x, &l.input_norm);
            let block = match &l.block {
                LayerBlock::Mamba(m) => push_mamba(&mut g, h, m, i),
                LayerBlock::Attention(a) => {
                    match place_tokens(1, cached) {
                        Ok(_) => {},
                        Err(e) => {
                            assert(self.layers@[i as int].block is Attention);
                            return Err(e);
                        },
                    }
                    assert(attends(self.layers@)) by {
                        assert(self.layers@[i as int].block is Attention);
                    }
                    push_attention(&mut g, h, a, i, self.pass_numbers(cached))
                },
            };
            x = push_rest(&mut g, x, block, l, i, residual);
            i = i + 1;
        }
        let x = g.norm(x, &self.norm);
        let logits = g.linear(x, &self.embed);
        let logits = g.scale(logits, Factor::Inverse(self.cfg.logits_scaling));
        let out = g.row(logits, 0);
        Ok((g, out))
    }
}

impl<'a, A> TokenByToken<'a, A> {
    /// The steps for token `i` of the pass, and the one that gives the logits, once
    /// `cached` positions are in use: those from before the pass, and one for each
    /// token before this one. It fails where an attention block has no room for the
    /// token.
    pub fn step(&self, i: usize, cached: usize) -> (r: Result<(Graph<'a, A>, usize), Error>)
        requires
            model_fits(*self.model),
            i < self.tokens@.len(),
            i <= cached < i32::MAX,
        ensures
            match r {
                Ok(f) => (cached < cache::KV_PREALLOC || !attends(self.model.layers@))
                    && f.0.well_formed() && f.0.holds(f.1) && f.0.at(f.1) == steps_of(
                    *self.model,
                    self.tokens@,
                    cached - i,
                )[i as int],
                Err(e) => cached >= cache::KV_PREALLOC && attends(self.model.layers@) && e@
                    == cache::exhausted(cached + 1),
            },
    {
        self.model.forward_one(self.tokens[i], cached)
    }
}

/// Whether the weights of a Mamba block have the shapes that it needs.
pub open spec fn mamba_shaped<A>(m: MambaMixer<A>, s: Shaping<A>, hidden: int) -> bool {
    let z = m.sizes;
    &&& z.consistent()
    &&& 0 <= z.num_heads && 0 <= z.intermediate && 0 <= z.state_size
    &&& s.is_matrix(m.in_proj, z.intermediate + z.conv_dim + z.num_heads, hidden)
    &&& s.is_conv(m)
    &&& m.conv_bias matches Some(b) ==> (s.weights)(b) == seq![z.conv_dim as int]
    &&& s.is_norm(m.norm, z.intermediate as int)
    &&& s.is_matrix(m.out_proj, hidden, z.intermediate as int)
    &&& (s.weights)(m.dt_bias) == seq![z.num_heads as int]
    &&& (s.weights)(m.a_log) == seq![z.num_heads as int]
    &&& graph::size((s.weights)(m.d)) == z.num_heads
}

/// Whether the weights of an attention block have the shapes that it needs.
pub open spec fn attention_shaped<A>(
    b: AttentionBlock<A>,
    s: Shaping<A>,
    p: Pass,
    hidden: int,
) -> bool {
    &&& s.is_matrix(b.q_proj, p.n_heads * p.head_dim, hidden)
    &&& s.is_matrix(b.k_proj, p.kv_heads * p.head_dim, hidden)
    &&& s.is_matrix(b.v_proj, p.kv_heads * p.head_dim, hidden)
    &&& s.is_matrix(b.o_proj, hidden, p.n_heads * p.head_dim)
}

/// Whether the weights of a layer have the shapes that it needs.
pub open spec fn layer_shaped<A>(
    l: GraniteLayer<A>,
    s: Shaping<A>,
    p: Pass,
    hidden: int,
) -> bool {
    let glu = l.moe.switch_mlp;
    &&& match l.block {
        LayerBlock::Mamba(m) => mamba_shaped(m, s, hidden),
        LayerBlock::Attention(b) => attention_shaped(b, s, p, hidden),
    }
    &&& s.is_norm(l.input_norm, hidden)
    &&& s.is_norm(l.post_norm, hidden)
    &&& 0 <= l.shared_mlp.hidden
    &&& s.is_matrix(l.shared_mlp.input, 2 * l.shared_mlp.hidden, hidden)
    &&& s.is_matrix(l.shared_mlp.output, hidden, l.shared_mlp.hidden as int)
    &&& 0 <= l.moe.top_k <= l.moe.num_experts
    &&& s.is_matrix(l.moe.router, l.moe.num_experts as int, hidden)
    &&& 0 <= glu.hidden
    &&& s.is_experts(glu.gate_proj, glu.hidden as int, hidden)
    &&& s.is_experts(glu.up_proj, glu.hidden as int, hidden)
    &&& s.is_experts(glu.down_proj, hidden, glu.hidden as int)
}

/// Whether the weights of a model have the shapes that a pass needs.
pub open spec fn model_shaped<A>(
    model: Granite<A>,
    s: Shaping<A>,
    p: Pass,
    hidden: int,
    vocab: int,
) -> bool {
    &&& s.is_matrix(model.embed, vocab, hidden)
    &&& forall|i: int|
        0 <= i < model.layers@.len() ==> layer_shaped(#[trigger] model.layers@[i], s, p, hidden)
    &&& s.is_norm(model.norm, hidden)
}

/// Whether the numbers of attention belong together.
pub open spec fn pass_consistent(p: Pass) -> bool {
    &&& 0 < p.kv_heads
    &&& p.n_heads % p.kv_heads == 0
    &&& p.q_dim == p.n_heads * p.head_dim
    &&& p.span.seq_len == 1
}

pub(crate) proof fn lemma_heads<A>(
    s: Shaping<A>,
    h: Term<A>,
    w: Quantized<A>,
    heads: i32,
    dim: i32,
    hidden: int,
)
    requires
        s.shape(h) == Some(seq![1int, hidden]),
        s.is_matrix(w, heads * dim, hidden),
    ensures
        s.shape(heads_term(h, w, heads, dim)) == Some(seq![heads as int, 1int, dim as int]),
{
    graph::lemma_linear(s, h, w, 1, heads * dim, hidden);
    graph::lemma_reshape_to_heads(s, h.linear(w), 1, heads, dim);
    let b = h.linear(w).reshape(seq![1i32, heads, dim]);
    assert(s.shape(b) == Some(seq![1int, heads as int, dim as int]));
}

pub(crate) proof fn lemma_attention<A>(
    s: Shaping<A>,
    h: Term<A>,
    b: AttentionBlock<A>,
    li: usize,
    p: Pass,
    hidden: int,
)
    requires
        pass_consistent(p),
        attention_shaped(b, s, p, hidden),
        s.shape(h) == Some(seq![1int, hidden]),
    ensures
        s.shape(attention_term(h, b, li, p)) == Some(seq![1int, hidden]),
{
    let m = p.span.new_end as int;
    let dim = p.head_dim as int;
    let q = heads_term(h, b.q_proj, p.n_heads, p.head_dim);
    let k0 = heads_term(h, b.k_proj, p.kv_heads, p.head_dim);
    let v0 = heads_term(h, b.v_proj, p.kv_heads, p.head_dim);
    lemma_heads(s, h, b.q_proj, p.n_heads, p.head_dim, hidden);
    lemma_heads(s, h, b.k_proj, p.kv_heads, p.head_dim, hidden);
    lemma_heads(s, h, b.v_proj, p.kv_heads, p.head_dim, hidden);
    let k = k0.keep(li, Part::Keys, p.kv_heads, p.head_dim, p.span);
    let v = v0.keep(li, Part::Values, p.kv_heads, p.head_dim, p.span);
    assert(s.shape(k) == Some(seq![p.kv_heads as int, m, dim]));
    assert(s.shape(v) == Some(seq![p.kv_heads as int, m, dim]));
    graph::lemma_batch(s, q, p.n_heads as int, 1, dim);
    graph::lemma_batch(s, k, p.kv_heads as int, m, dim);
    graph::lemma_batch(s, v, p.kv_heads as int, m, dim);
    let a = q.batch().attend(k.batch(), v.batch(), p.scale, MaskKind::Absent);
    assert(s.shape(a) == Some(seq![1int, p.n_heads as int, 1int, dim]));
    graph::lemma_heads_back(s, a, 1, p.n_heads, p.head_dim, p.q_dim);
    let c = a.swap_middle().reshape(seq![1i32, p.q_dim]);
    assert(s.shape(c) == Some(seq![1int, p.q_dim as int]));
    graph::lemma_linear(s, c, b.o_proj, 1, hidden, p.n_heads * p.head_dim);
}

pub(crate) proof fn lemma_flatten<A>(s: Shaping<A>, t: Term<A>, d: i32)
    requires
        s.shape(t) == Some(seq![1int, d as int]),
    ensures
        s.shape(t.reshape(seq![d])) == Some(seq![d as int]),
{
    graph::lemma_size2(1, d as int);
    graph::lemma_size1(d as int);
    assert(graph::ints(seq![d]) =~= seq![d as int]);
}

pub(crate) proof fn lemma_conv<A>(
    s: Shaping<A>,
    x: Term<A>,
    m: MambaMixer<A>,
    li: usize,
    hidden: int,
)
    requires
        mamba_shaped(m, s, hidden),
        s.shape(x) == Some(seq![1int, m.sizes.conv_dim as int]),
    ensures
        s.shape(conv_term(x, m, li)) == Some(seq![1int, m.sizes.conv_dim as int]),
{
    let c = m.sizes.conv_dim;
    let b = x.batch();
    assert(seq![1int] + seq![1int, c as int] =~= seq![1int, 1int, c as int]);
    assert(s.shape(b) == Some(seq![1int, 1int, c as int]));
    if m.conv_bias is Some {
        graph::lemma_size3(1, 1, c as int);
        graph::lemma_size1(c as int);
        assert(graph::ints(seq![c]) =~= seq![c as int]);
        let f = b.reshape(seq![c]);
        assert(s.shape(f) == Some(seq![c as int]));
        let y = f.conv_fused(li, m);
        assert(s.shape(y) == Some(seq![c as int]));
        graph::lemma_size2(1, c as int);
        assert(graph::ints(seq![1i32, c]) =~= seq![1int, c as int]);
    }
}

pub(crate) proof fn lemma_ssm<A>(
    s: Shaping<A>,
    conv: Term<A>,
    dt: Term<A>,
    m: MambaMixer<A>,
    li: usize,
    hidden: int,
)
    requires
        mamba_shaped(m, s, hidden),
        s.shape(conv) == Some(seq![1int, m.sizes.conv_dim as int]),
        s.shape(dt) == Some(seq![1int, m.sizes.num_heads as int]),
    ensures
        s.shape(ssm_term(conv, dt, m, li)) == Some(seq![1int, m.sizes.intermediate as int]),
{
    let z = m.sizes;
    let at = conv_cuts(z);
    let last = seq![1int, z.conv_dim as int];
    let p0 = conv.piece(at, 0);
    let p1 = conv.piece(at, 1);
    let p2 = conv.piece(at, 2);
    assert(last.drop_last().push(z.intermediate as int) =~= seq![1int, z.intermediate as int]);
    assert(last.drop_last().push(z.state_size as int) =~= seq![1int, z.state_size as int]);
    assert(s.shape(p0) == Some(seq![1int, z.intermediate as int]));
    assert(s.shape(p1) == Some(seq![1int, z.state_size as int]));
    assert(s.shape(p2) == Some(seq![1int, z.state_size as int]));
    graph::lemma_size2(1, z.intermediate as int);
    graph::lemma_size2(z.num_heads as int, z.head_dim as int);
    assert(graph::ints(seq![z.num_heads, z.head_dim]) =~= seq![
        z.num_heads as int,
        z.head_dim as int,
    ]);
    let h = p0.reshape(seq![z.num_heads, z.head_dim]);
    assert(s.shape(h) == Some(seq![z.num_heads as int, z.head_dim as int]));
    lemma_flatten(s, p1, z.state_size);
    lemma_flatten(s, p2, z.state_size);
    let t = dt.timestep(m.dt_bias);
    assert(s.shape(t) == Some(seq![1int, z.num_heads as int]));
    lemma_flatten(s, t, z.num_heads);
    let y = h.ssm_update(
        p1.reshape(seq![z.state_size]),
        p2.reshape(seq![z.state_size]),
        t.reshape(seq![z.num_heads]),
        li,
        m,
    );
    assert(s.shape(y) == Some(seq![z.num_heads as int, z.head_dim as int]));
    assert(graph::ints(seq![1i32, z.intermediate]) =~= seq![1int, z.intermediate as int]);
}

pub(crate) proof fn lemma_mamba<A>(
    s: Shaping<A>,
    h: Term<A>,
    m: MambaMixer<A>,
    li: usize,
    hidden: int,
)
    requires
        mamba_shaped(m, s, hidden),
        s.shape(h) == Some(seq![1int, hidden]),
    ensures
        s.shape(mamba_term(h, m, li)) == Some(seq![1int, hidden]),
{
    let z = m.sizes;
    let whole = z.intermediate + z.conv_dim + z.num_heads;
    let projected = h.linear(m.in_proj);
    graph::lemma_linear(s, h, m.in_proj, 1, whole, hidden);
    let at = input_cuts(z);
    let last = seq![1int, whole];
    assert(last.drop_last().push(z.intermediate as int) =~= seq![1int, z.intermediate as int]);
    assert(last.drop_last().push(z.conv_dim as int) =~= seq![1int, z.conv_dim as int]);
    assert(last.drop_last().push(z.num_heads as int) =~= seq![1int, z.num_heads as int]);
    let p0 = projected.piece(at, 0);
    let p1 = projected.piece(at, 1);
    let p2 = projected.piece(at, 2);
    assert(s.shape(p0) == Some(seq![1int, z.intermediate as int]));
    assert(s.shape(p1) == Some(seq![1int, z.conv_dim as int]));
    assert(s.shape(p2) == Some(seq![1int, z.num_heads as int]));
    lemma_conv(s, p1, m, li, hidden);
    let conv = conv_term(p1, m, li);
    lemma_ssm(s, conv, p2, m, li, hidden);
    let y = ssm_term(conv, p2, m, li);
    let g = p0.silu();
    assert(s.shape(g) == Some(seq![1int, z.intermediate as int]));
    let w = y.times(g);
    assert(s.shape(w) == Some(seq![1int, z.intermediate as int]));
    let n = w.norm(m.norm);
    assert(s.shape(n) == Some(seq![1int, z.intermediate as int]));
    graph::lemma_linear(s, n, m.out_proj, 1, hidden, z.intermediate as int);
}

pub(crate) proof fn lemma_moe<A>(
    s: Shaping<A>,
    x: Term<A>,
    l: GraniteLayer<A>,
    li: usize,
    p: Pass,
    hidden: int,
)
    requires
        layer_shaped(l, s, p, hidden),
        s.shape(x) == Some(seq![1int, hidden]),
    ensures
        s.shape(moe_term(x, l.moe, li)) == Some(seq![1int, hidden]),
{
    let moe = l.moe;
    let glu = moe.switch_mlp;
    let k = moe.top_k as int;
    let inner = glu.hidden as int;
    let logits = x.linear(moe.router);
    graph::lemma_linear(s, x, moe.router, 1, moe.num_experts as int, hidden);
    let indices = logits.top_indices((moe.num_experts - moe.top_k) as i32);
    assert(s.shape(indices) == Some(seq![1int, k]));
    let chosen = logits.take_along(indices);
    assert(s.shape(chosen) == Some(seq![1int, k]));
    let shares = chosen.softmax();
    assert(s.shape(shares) == Some(seq![1int, k]));
    let rows = x.spread();
    assert(s.shape(rows) == Some(seq![1int, 1int, 1int, hidden]));
    let both = rows.expert_pair(li, glu.gate_proj, glu.up_proj, indices);
    let last = seq![1int, k, 1int, 2 * inner];
    assert(s.shape(both) == Some(last));
    assert(last.drop_last().push(inner) =~= seq![1int, k, 1int, inner]);
    let a = both.piece(seq![glu.hidden], 0);
    let b = both.piece(seq![glu.hidden], 1);
    assert(s.shape(a) == Some(seq![1int, k, 1int, inner]));
    assert(s.shape(b) == Some(seq![1int, k, 1int, inner]));
    assert(s.shape(a.silu()) == s.shape(a));
    let h = halves(both, glu.hidden);
    assert(s.shape(h) == Some(seq![1int, k, 1int, inner]));
    let out = h.experts(glu.down_proj, indices);
    assert(s.shape(out) == Some(seq![1int, k, 1int, hidden]));
    let flat = out.drop_axis();
    assert(s.shape(flat) == Some(seq![1int, k, hidden]));
    let by = shares.last_axis();
    assert(seq![1int, k].push(1) =~= seq![1int, k, 1int]);
    assert(seq![1int, k, hidden].drop_last().push(1) =~= seq![1int, k, 1int]);
    assert(s.shape(by) == Some(seq![1int, k, 1int]));
    let weighed = flat.weigh(by);
    assert(s.shape(weighed) == Some(seq![1int, k, hidden]));
}

pub(crate) proof fn lemma_shared<A>(
    s: Shaping<A>,
    x: Term<A>,
    l: GraniteLayer<A>,
    p: Pass,
    hidden: int,
)
    requires
        layer_shaped(l, s, p, hidden),
        s.shape(x) == Some(seq![1int, hidden]),
    ensures
        s.shape(shared_term(x, l.shared_mlp)) == Some(seq![1int, hidden]),
{
    let mlp = l.shared_mlp;
    let inner = mlp.hidden as int;
    let both = x.linear(mlp.input);
    graph::lemma_linear(s, x, mlp.input, 1, 2 * inner, hidden);
    let last = seq![1int, 2 * inner];
    assert(last.drop_last().push(inner) =~= seq![1int, inner]);
    let a = both.piece(seq![mlp.hidden], 0);
    let b = both.piece(seq![mlp.hidden], 1);
    assert(s.shape(a) == Some(seq![1int, inner]));
    assert(s.shape(b) == Some(seq![1int, inner]));
    assert(s.shape(a.silu()) == s.shape(a));
    let h = halves(both, mlp.hidden);
    assert(s.shape(h) == Some(seq![1int, inner]));
    graph::lemma_linear(s, h, mlp.output, 1, hidden, inner);
}

pub(crate) proof fn lemma_layers<A>(
    s: Shaping<A>,
    x: Term<A>,
    model: Granite<A>,
    p: Pass,
    residual: Factor,
    hidden: int,
    vocab: int,
    k: nat,
)
    requires
        attends(model.layers@) ==> pass_consistent(p),
        model_shaped(model, s, p, hidden, vocab),
        s.shape(x) == Some(seq![1int, hidden]),
        k <= model.layers@.len(),
    ensures
        s.shape(layers_term(x, model.layers@, p, residual, k)) == Some(seq![1int, hidden]),
    decreases k,
{
    if k > 0 {
        lemma_layers(s, x, model, p, residual, hidden, vocab, (k - 1) as nat);
        let wide = Some(seq![1int, hidden]);
        let y = layers_term(x, model.layers@, p, residual, (k - 1) as nat);
        let l = model.layers@[k - 1];
        let li = (k - 1) as usize;
        let h = y.norm(l.input_norm);
        assert(s.shape(h) == wide);
        match l.block {
            LayerBlock::Mamba(m) => lemma_mamba(s, h, m, li, hidden),
            LayerBlock::Attention(b) => {
                assert(model.layers@[k - 1].block is Attention);
                lemma_attention(s, h, b, li, p, hidden);
            },
        }
        let b = block_term(h, l.block, li, p);
        assert(s.shape(b.scale(residual)) == wide);
        let z = y.plus(b.scale(residual));
        assert(s.shape(z) == wide);
        let n = z.norm(l.post_norm);
        assert(s.shape(n) == wide);
        lemma_moe(s, n, l, li, p, hidden);
        lemma_shared(s, n, l, p, hidden);
        let mlp = moe_term(n, l.moe, li).plus(shared_term(n, l.shared_mlp));
        assert(s.shape(mlp) == wide);
        assert(s.shape(mlp.scale(residual)) == wide);
    }
}

/// In a model whose weights have the right shapes, every step of a forward pass
/// is given arrays of shapes that it can take, however many tokens are cached;
/// and the pass gives a row of logits.
pub proof fn law_every_step_fits<A>(
    model: Granite<A>,
    s: Shaping<A>,
    token: i32,
    p: Pass,
    hidden: int,
    vocab: int,
)
    requires
        attends(model.layers@) ==> pass_consistent(p),
        model_shaped(model, s, p, hidden, vocab),
    ensures
        s.shape(forward_term(model, token, p)) == Some(seq![vocab]),
{
    let t = Term::Tokens(seq![token]);
    assert(s.shape(t) == Some(seq![1int]));
    let x0 = Term::Lookup(model.embed, Box::new(t));
    assert(s.shape(x0) == Some(seq![1int, hidden]));
    let x = x0.scale(Factor::Given(model.cfg.embedding_multiplier));
    assert(s.shape(x) == Some(seq![1int, hidden]));
    let residual = Factor::Given(model.cfg.residual_multiplier);
    lemma_layers(s, x, model, p, residual, hidden, vocab, model.layers@.len());
    let y = layers_term(x, model.layers@, p, residual, model.layers@.len()).norm(model.norm);
    assert(s.shape(y) == Some(seq![1int, hidden]));
    graph::lemma_linear(s, y, model.embed, 1, vocab, hidden);
    let logits = y.linear(model.embed).scale(Factor::Inverse(model.cfg.logits_scaling));
    assert(s.shape(logits) == Some(seq![1int, vocab]));
}

/// The numbers of a pass belong together where a layer attends, so long as the
/// attention heads share the key/value heads evenly.
pub proof fn law_passes_are_consistent<A>(model: Granite<A>, cached: int)
    requires
        model_fits(model),
        attends(model.layers@),
        model.cfg.num_attention_heads % model.cfg.kv_heads_spec() == 0,
    ensures
        pass_consistent(pass_of(model, cached)),
{
}

} // verus!
