//! What a forward pass of Granite computes, in real numbers.

use vstd::prelude::*;

use crate::cache::Span;
use crate::graph;
use crate::granite::{
    AttentionBlock, Granite, GraniteLayer, LayerBlock, MambaMixer, Moe, SharedMlp, SwitchGlu,
};
use crate::granite_forward;
use crate::granite_forward::{
    attention_shaped, attention_term, block_term, conv_cuts, conv_term, forward_term,
    halves, heads_term, input_cuts, layer_shaped, layer_term, layers_term, mamba_shaped,
    mamba_term, model_shaped, moe_term, pass_consistent, pass_of, shared_term, ssm_term, Pass,
};
use crate::graph::{Factor, MaskKind, Part, Term};
use crate::meaning::{
    axis, flat, law_attention, law_heads_are_projected, law_shares_are_of_one_whole, lemma_below,
    lemma_shared_head, lemma_sum_positive, shares, sum, Reading,
};
use crate::weights::RmsNorm;

verus! {

/// How much a router prefers each expert for a row.
pub open spec fn preference<A>(r: Reading<A>, moe: Moe<A>, row: Seq<real>) -> Seq<real> {
    Seq::new(moe.num_experts as nat, |e: int| r.product(moe.router, row, e))
}

/// The experts that a row goes through.
pub open spec fn chosen<A>(r: Reading<A>, moe: Moe<A>, row: Seq<real>) -> Seq<int> {
    let from = moe.num_experts - moe.top_k;
    Seq::new(
        moe.top_k as nat,
        |a: int| (r.order)(preference(r, moe, row), from, from + a),
    )
}

/// What an expert makes of a row.
pub open spec fn by_expert<A>(
    r: Reading<A>,
    glu: SwitchGlu<A>,
    e: int,
    row: Seq<real>,
    c: int,
) -> real {
    let inner = Seq::new(
        glu.hidden as nat,
        |d: int|
            r.silu(r.expert_product(glu.gate_proj, e, row, d)) * r.expert_product(
                glu.up_proj,
                e,
                row,
                d,
            ),
    );
    r.expert_product(glu.down_proj, e, inner, c)
}

/// How much each of the chosen experts counts: the exponentials of the preferences for
/// them, as shares of their sum.
pub open spec fn counted<A>(r: Reading<A>, moe: Moe<A>, row: Seq<real>) -> Seq<real> {
    let who = chosen(r, moe, row);
    shares(Seq::new(moe.top_k as nat, |a: int| (r.exp)(r.product(moe.router, row, who[a]))))
}

/// What the chosen experts make of a row, each by its share.
pub open spec fn mixed<A>(r: Reading<A>, moe: Moe<A>, row: Seq<real>, c: int) -> real {
    let who = chosen(r, moe, row);
    let by = counted(r, moe, row);
    sum(
        Seq::new(
            moe.top_k as nat,
            |a: int| by_expert(r, moe.switch_mlp, who[a], row, c) * by[a],
        ),
    )
}

/// Whether the order of a row is one: the places from `from` on are places of the row,
/// none twice, and no number elsewhere in the row is larger than one at them.
pub open spec fn ranks<A>(r: Reading<A>) -> bool {
    forall|row: Seq<real>, from: int, j: int|
        #![trigger (r.order)(row, from, j)]
        0 <= from <= j < row.len() ==> {
            &&& 0 <= (r.order)(row, from, j) < row.len()
            &&& forall|k: int|
                from <= k < row.len() && k != j ==> (r.order)(row, from, j) != #[trigger] (
                r.order)(row, from, k)
            &&& forall|e: int|
                #![trigger row[e]]
                0 <= e < row.len() && (forall|k: int|
                    from <= k < row.len() ==> #[trigger] (r.order)(row, from, k) != e) ==> row[e]
                    <= row[(r.order)(row, from, j)]
        }
}

/// Whether `who` are `k` experts, none twice, and none of the others is preferred to
/// one of them.
pub open spec fn preferred(to: Seq<real>, who: Seq<int>, k: int) -> bool {
    &&& who.len() == k
    &&& forall|a: int| 0 <= a < k ==> 0 <= #[trigger] who[a] < to.len()
    &&& forall|a: int, b: int| 0 <= a < b < k ==> #[trigger] who[a] != #[trigger] who[b]
    &&& forall|a: int, e: int|
        #![trigger who[a], to[e]]
        0 <= a < k && 0 <= e < to.len() && !who.contains(e) ==> to[e] <= to[who[a]]
}

/// Whether the two matrices of a layer's experts that are laid side by side are those that
/// a row goes through first.
pub open spec fn laid_side_by_side<A>(r: Reading<A>, moe: Moe<A>, li: usize) -> bool {
    (r.pair)(li) == (moe.switch_mlp.gate_proj, moe.switch_mlp.up_proj)
}

proof fn lemma_moe_value<A>(
    r: Reading<A>,
    x: Term<A>,
    l: GraniteLayer<A>,
    li: usize,
    p: Pass,
    hidden: int,
    c: int,
)
    requires
        layer_shaped(l, r.shaping, p, hidden),
        laid_side_by_side(r, l.moe, li),
        0 <= hidden,
        r.shaping.shape(x) == Some(seq![1int, hidden]),
        0 <= c < hidden,
    ensures
        r.value(moe_term(x, l.moe, li))(0, 0, 0, c) == mixed(r, l.moe, r.row(x, 0), c),
{
    let s = r.shaping;
    let moe = l.moe;
    let glu = moe.switch_mlp;
    let k = moe.top_k as int;
    let inner = glu.hidden as int;
    let from = (moe.num_experts - moe.top_k) as i32;
    let row = r.row(x, 0);
    let logits = x.linear(moe.router);
    graph::lemma_linear(s, x, moe.router, 1, moe.num_experts as int, hidden);
    let indices = logits.top_indices(from);
    assert(s.shape(indices) == Some(seq![1int, k]));
    let taken = logits.take_along(indices);
    assert(s.shape(taken) == Some(seq![1int, k]));
    let part = taken.softmax();
    assert(s.shape(part) == Some(seq![1int, k]));
    let rows = x.spread();
    assert(s.shape(rows) == Some(seq![1int, 1int, 1int, hidden]));
    let both = rows.expert_pair(li, glu.gate_proj, glu.up_proj, indices);
    let last = seq![1int, k, 1int, 2 * inner];
    assert(s.shape(both) == Some(last));
    assert(last.drop_last().push(inner) =~= seq![1int, k, 1int, inner]);
    let first = both.piece(seq![glu.hidden], 0);
    let second = both.piece(seq![glu.hidden], 1);
    assert(s.shape(first) == Some(seq![1int, k, 1int, inner]));
    assert(s.shape(second) == Some(seq![1int, k, 1int, inner]));
    assert(s.shape(first.silu()) == s.shape(first));
    let h = halves(both, glu.hidden);
    assert(s.shape(h) == Some(seq![1int, k, 1int, inner]));
    let out = h.experts(glu.down_proj, indices);
    assert(s.shape(out) == Some(seq![1int, k, 1int, hidden]));
    let flat = out.drop_axis();
    assert(s.shape(flat) == Some(seq![1int, k, hidden]));
    let by = part.last_axis();
    assert(seq![1int, k].push(1) =~= seq![1int, k, 1int]);
    assert(seq![1int, k, hidden].drop_last().push(1) =~= seq![1int, k, 1int]);
    assert(s.shape(by) == Some(seq![1int, k, 1int]));
    let weighed = flat.weigh(by);
    assert(s.shape(weighed) == Some(seq![1int, k, hidden]));

    let to = preference(r, moe, row);
    let who = chosen(r, moe, row);
    let v = r.value(logits);
    let vx = r.value(x);
    assert(row =~= Seq::new(hidden as nat, |j: int| vx(0, 0, 0, j)));
    assert(Seq::new(moe.num_experts as nat, |j: int| v(0, 0, 0, j)) =~= to);
    let at = r.places(indices);
    assert(forall|a: int| 0 <= a < k ==> #[trigger] at(0, a) == who[a]);
    // The shares.
    let vt = r.value(taken);
    let exps = Seq::new(k as nat, |a: int| (r.exp)(r.product(moe.router, row, who[a])));
    let counts = counted(r, moe, row);
    assert forall|a: int| 0 <= a < k implies (#[trigger] r.value(part)(0, 0, 0, a)) == counts[a] by {
        let got = Seq::new(k as nat, |j: int| (r.exp)(vt(0, 0, 0, j)));
        assert forall|j: int| 0 <= j < k implies #[trigger] got[j] == exps[j] by {
            assert(vt(0, 0, 0, j) == v(0, 0, 0, at(0, j)));
            assert(at(0, j) == who[j]);
        }
        assert(got =~= exps);
    }
    // What each expert gives.
    assert forall|a: int| 0 <= a < k implies (#[trigger] r.value(out)(0, a, 0, c)) == by_expert(
        r,
        glu,
        who[a],
        row,
        c,
    ) by {
        let vr = r.value(rows);
        assert(Seq::new(hidden as nat, |j: int| vr(0, 0, 0, j)) =~= row);
        let vh = r.value(h);
        let got = Seq::new(inner as nat, |d: int| vh(0, a, 0, d));
        let want = Seq::new(
            glu.hidden as nat,
            |d: int|
                r.silu(r.expert_product(glu.gate_proj, who[a], row, d)) * r.expert_product(
                    glu.up_proj,
                    who[a],
                    row,
                    d,
                ),
        );
        assert forall|d: int| 0 <= d < inner implies #[trigger] got[d] == want[d] by {
            assert(r.value(first)(0, a, 0, d) == r.value(both)(0, a, 0, 0 + d));
            assert(r.value(second)(0, a, 0, d) == r.value(both)(0, a, 0, inner + d));
            assert(at(0, a) == who[a]);
            assert(r.value(both)(0, a, 0, d) == r.expert_product(glu.gate_proj, who[a], row, d));
            assert(r.value(both)(0, a, 0, inner + d) == r.expert_product(
                glu.up_proj,
                who[a],
                row,
                d,
            ));
            assert(r.value(first.silu())(0, a, 0, d) == r.silu(r.value(first)(0, a, 0, d)));
        }
        assert(got =~= want);
        let each = axis(r.extent(h), 2);
        assert(each == k);
        let place = if each == 1 {
            0
        } else {
            a
        };
        assert(place == a);
        assert(Seq::new(inner as nat, |j: int| vh(0, place, 0, j)) =~= got);
    }
    let vw = r.value(weighed);
    let got = Seq::new(k as nat, |e: int| vw(0, 0, e, c));
    let want = Seq::new(
        moe.top_k as nat,
        |a: int| by_expert(r, moe.switch_mlp, who[a], row, c) * counts[a],
    );
    assert forall|e: int| 0 <= e < k implies #[trigger] got[e] == want[e] by {
        assert(r.value(flat)(0, 0, e, c) == r.value(out)(0, e, 0, c));
        assert(r.value(by)(0, 0, e, 0) == r.value(part)(0, 0, 0, e));
    }
    assert(got =~= want);
}

/// Whether `out` is the mean, by the weights `by`, of what the experts `who` make of a
/// row: they are those that the router prefers; none of the weights is negative, they sum
/// to one, and they are to one another as the exponentials of the preferences.
pub open spec fn mixes<A>(
    r: Reading<A>,
    moe: Moe<A>,
    row: Seq<real>,
    who: Seq<int>,
    by: Seq<real>,
    out: Seq<real>,
) -> bool {
    let to = preference(r, moe, row);
    &&& preferred(to, who, moe.top_k as int)
    &&& by.len() == moe.top_k
    &&& sum(by) == 1real
    &&& forall|a: int| 0 <= a < by.len() ==> #[trigger] by[a] >= 0real
    &&& forall|a: int, b: int|
        0 <= a < by.len() && 0 <= b < by.len() ==> #[trigger] by[a] * (r.exp)(to[who[b]])
            == #[trigger] by[b] * (r.exp)(to[who[a]])
    &&& forall|c: int|
        0 <= c < out.len() ==> #[trigger] out[c] == sum(
            Seq::new(by.len(), |a: int| by_expert(r, moe.switch_mlp, who[a], row, c) * by[a]),
        )
}

proof fn lemma_preferred<A>(r: Reading<A>, moe: Moe<A>, row: Seq<real>)
    requires
        ranks(r),
        0 <= moe.top_k <= moe.num_experts,
    ensures
        preferred(preference(r, moe, row), chosen(r, moe, row), moe.top_k as int),
{
    let k = moe.top_k as int;
    let from = moe.num_experts - moe.top_k;
    let to = preference(r, moe, row);
    let who = chosen(r, moe, row);
    assert forall|a: int| 0 <= a < k implies 0 <= #[trigger] who[a] < to.len() by {
        assert(who[a] == (r.order)(to, from, from + a));
    }
    assert forall|a: int, b: int| 0 <= a < b < k implies #[trigger] who[a]
        != #[trigger] who[b] by {
        assert(who[a] == (r.order)(to, from, from + a));
        assert(who[b] == (r.order)(to, from, from + b));
    }
    assert forall|a: int, e: int|
        #![trigger who[a], to[e]]
        0 <= a < k && 0 <= e < to.len() && !who.contains(e) implies to[e] <= to[who[a]] by {
        assert(who[a] == (r.order)(to, from, from + a));
        assert forall|j: int| from <= j < to.len() implies #[trigger] (r.order)(to, from, j)
            != e by {
            assert(who[j - from] == (r.order)(to, from, from + (j - from)));
            assert(who.contains(who[j - from]));
        }
    }
}

/// A mixture of experts gives the mean of what the experts make of a row that the
/// router prefers: none of the weights is negative, they sum to one, and they are to one
/// another as the exponentials of the preferences.
pub proof fn law_the_preferred_experts_are_mixed<A>(
    r: Reading<A>,
    x: Term<A>,
    l: GraniteLayer<A>,
    li: usize,
    p: Pass,
    hidden: int,
)
    requires
        r.sound(),
        ranks(r),
        layer_shaped(l, r.shaping, p, hidden),
        laid_side_by_side(r, l.moe, li),
        0 <= hidden,
        0 < l.moe.top_k,
        r.shaping.shape(x) == Some(seq![1int, hidden]),
    ensures
        r.shaping.shape(moe_term(x, l.moe, li)) == Some(seq![1int, hidden]),
        exists|who: Seq<int>, by: Seq<real>| #[trigger]
            mixes(r, l.moe, r.row(x, 0), who, by, r.row(moe_term(x, l.moe, li), 0)),
{
    let row = r.row(x, 0);
    let moe = l.moe;
    let k = moe.top_k as int;
    let from = moe.num_experts - moe.top_k;
    let to = preference(r, moe, row);
    let who = chosen(r, moe, row);
    let exps = Seq::new(k as nat, |a: int| (r.exp)(r.product(moe.router, row, who[a])));
    let by = counted(r, moe, row);
    lemma_preferred(r, moe, row);
    assert(exps[0] > 0real);
    lemma_sum_positive(exps, 0);
    law_shares_are_of_one_whole(exps);
    assert forall|a: int, b: int| 0 <= a < by.len() && 0 <= b < by.len() implies #[trigger] by[a]
        * (r.exp)(to[who[b]]) == #[trigger] by[b] * (r.exp)(to[who[a]]) by {
        assert(exps[a] == (r.exp)(to[who[a]]));
        assert(exps[b] == (r.exp)(to[who[b]]));
    }
    granite_forward::lemma_moe(r.shaping, x, l, li, p, hidden);
    let out = r.row(moe_term(x, l.moe, li), 0);
    assert forall|c: int| 0 <= c < out.len() implies #[trigger] out[c] == sum(
        Seq::new(by.len(), |a: int| by_expert(r, l.moe.switch_mlp, who[a], row, c) * by[a]),
    ) by {
        lemma_moe_value(r, x, l, li, p, hidden, c);
    }
    assert(mixes(r, moe, row, who, by, out));
}

/// The weights of two experts in a mixture are to one another as the exponential of the
/// difference of the preferences for them.
pub proof fn law_differences_of_preferences_decide<A>(
    r: Reading<A>,
    moe: Moe<A>,
    row: Seq<real>,
    who: Seq<int>,
    by: Seq<real>,
    out: Seq<real>,
    a: int,
    b: int,
)
    requires
        r.sound(),
        mixes(r, moe, row, who, by, out),
        0 <= a < by.len(),
        0 <= b < by.len(),
        ({
            let x = preference(r, moe, row)[who[a]];
            let y = preference(r, moe, row)[who[b]];
            (r.exp)(x) == (r.exp)(x - y) * (r.exp)(y)
        }),
    ensures
        by[a] == by[b] * (r.exp)(preference(r, moe, row)[who[a]] - preference(r, moe, row)[who[b]]),
{
    let x = preference(r, moe, row)[who[a]];
    let y = preference(r, moe, row)[who[b]];
    let d = (r.exp)(x - y);
    let e = (r.exp)(y);
    let p = by[a];
    let q = by[b];
    assert(p * e == q * (r.exp)(x));
    assert(e > 0real);
    assert(p == q * d) by (nonlinear_arith)
        requires
            p * e == q * (d * e),
            e > 0real,
    ;
}

/// The key of key/value head `g` at position `j`: what the layer's buffer held, or the
/// projection of the token by `k_proj`.
pub open spec fn key<A>(
    r: Reading<A>,
    b: AttentionBlock<A>,
    li: usize,
    p: Pass,
    row: Seq<real>,
    g: int,
    j: int,
) -> Seq<real> {
    if j < p.span.offset {
        r.held_head(li, Part::Keys, g, j, p.head_dim as int)
    } else {
        r.headed(b.k_proj, row, p.head_dim as int, g)
    }
}

/// The value of key/value head `g` at position `j`: what the layer's buffer held, or the
/// projection of the token by `v_proj`.
pub open spec fn value<A>(
    r: Reading<A>,
    b: AttentionBlock<A>,
    li: usize,
    p: Pass,
    row: Seq<real>,
    g: int,
    j: int,
) -> Seq<real> {
    if j < p.span.offset {
        r.held_head(li, Part::Values, g, j, p.head_dim as int)
    } else {
        r.headed(b.v_proj, row, p.head_dim as int, g)
    }
}

/// What attention gives for a token: the queries of `q_proj` are compared with the keys
/// of all tokens so far, and the values averaged.
pub open spec fn attention_at<A>(
    r: Reading<A>,
    b: AttentionBlock<A>,
    li: usize,
    p: Pass,
    row: Seq<real>,
    c: int,
) -> real {
    let per = p.n_heads as int / p.kv_heads as int;
    let n = (p.span.offset + 1) as nat;
    r.attention(
        Seq::new(p.n_heads as nat, |h: int| r.headed(b.q_proj, row, p.head_dim as int, h)),
        Seq::new(
            p.n_heads as nat,
            |h: int| Seq::new(n, |j: int| key(r, b, li, p, row, h / per, j)),
        ),
        Seq::new(
            p.n_heads as nat,
            |h: int| Seq::new(n, |j: int| value(r, b, li, p, row, h / per, j)),
        ),
        r.factor(p.scale),
        Seq::new(n, |j: int| true),
        p.head_dim as int,
        b.o_proj,
        c,
    )
}

/// Whether a pass over one token can be read.
pub open spec fn readable<A>(r: Reading<A>, p: Pass, hidden: int) -> bool {
    &&& r.sound()
    &&& forall|q: int, k: int| (#[trigger] (r.sees)(MaskKind::Absent, q, k))
    &&& 0 <= hidden
    &&& 0 < p.n_heads
    &&& 0 < p.head_dim
    &&& 0 <= p.span.offset
    &&& p.span.new_end == p.span.offset + 1
}

proof fn lemma_kept_head<A>(
    r: Reading<A>,
    h: Term<A>,
    w: crate::weights::Quantized<A>,
    li: usize,
    part: Part,
    p: Pass,
    hidden: int,
    g: int,
    j: int,
)
    requires
        readable(r, p, hidden),
        pass_consistent(p),
        r.shaping.shape(h) == Some(seq![1int, hidden]),
        r.shaping.is_matrix(w, p.kv_heads * p.head_dim, hidden),
        0 <= g < p.kv_heads,
        0 <= j < p.span.new_end,
    ensures
        r.at_head(
            heads_term(h, w, p.kv_heads, p.head_dim).keep(
                li,
                part,
                p.kv_heads,
                p.head_dim,
                p.span,
            ),
            g,
            j,
            p.head_dim as int,
        ) == (if j < p.span.offset {
            r.held_head(li, part, g, j, p.head_dim as int)
        } else {
            r.headed(w, r.row(h, 0), p.head_dim as int, g)
        }),
{
    let t = heads_term(h, w, p.kv_heads, p.head_dim);
    let u = t.keep(li, part, p.kv_heads, p.head_dim, p.span);
    law_heads_are_projected(r, h, w, 1, p.kv_heads, p.head_dim, hidden, 0, g);
    let got = r.at_head(u, g, j, p.head_dim as int);
    if j < p.span.offset {
        assert(got =~= r.held_head(li, part, g, j, p.head_dim as int));
    } else {
        assert(got =~= r.at_head(t, g, 0, p.head_dim as int));
    }
}

/// Attention compares the queries of `q_proj` with the keys of `k_proj`, and averages
/// the values of `v_proj`.
pub proof fn law_attention_compares_keys_and_averages_values<A>(
    r: Reading<A>,
    h: Term<A>,
    b: AttentionBlock<A>,
    li: usize,
    p: Pass,
    hidden: int,
    c: int,
)
    requires
        readable(r, p, hidden),
        pass_consistent(p),
        attention_shaped(b, r.shaping, p, hidden),
        r.shaping.shape(h) == Some(seq![1int, hidden]),
    ensures
        r.value(attention_term(h, b, li, p))(0, 0, 0, c) == attention_at(
            r,
            b,
            li,
            p,
            r.row(h, 0),
            c,
        ),
{
    let s = r.shaping;
    let row = r.row(h, 0);
    let dim = p.head_dim as int;
    let q = heads_term(h, b.q_proj, p.n_heads, p.head_dim);
    let k0 = heads_term(h, b.k_proj, p.kv_heads, p.head_dim);
    let v0 = heads_term(h, b.v_proj, p.kv_heads, p.head_dim);
    granite_forward::lemma_heads(s, h, b.q_proj, p.n_heads, p.head_dim, hidden);
    granite_forward::lemma_heads(s, h, b.k_proj, p.kv_heads, p.head_dim, hidden);
    granite_forward::lemma_heads(s, h, b.v_proj, p.kv_heads, p.head_dim, hidden);
    let k = k0.keep(li, Part::Keys, p.kv_heads, p.head_dim, p.span);
    let v = v0.keep(li, Part::Values, p.kv_heads, p.head_dim, p.span);
    let m = p.span.new_end as int;
    assert(s.shape(k) == Some(seq![p.kv_heads as int, m, dim]));
    assert(s.shape(v) == Some(seq![p.kv_heads as int, m, dim]));
    law_attention(
        r,
        q,
        k,
        v,
        p.scale,
        MaskKind::Absent,
        1,
        p.n_heads,
        p.kv_heads as int,
        m,
        p.head_dim,
        p.q_dim,
        b.o_proj,
        hidden,
        0,
        c,
    );
    let per = p.n_heads as int / p.kv_heads as int;
    let n = (p.span.offset + 1) as nat;
    let qs = Seq::new(p.n_heads as nat, |h: int| r.headed(b.q_proj, row, dim, h));
    let ks = Seq::new(
        p.n_heads as nat,
        |h: int| Seq::new(n, |j: int| key(r, b, li, p, row, h / per, j)),
    );
    let vs = Seq::new(
        p.n_heads as nat,
        |h: int| Seq::new(n, |j: int| value(r, b, li, p, row, h / per, j)),
    );
    let qs1 = Seq::new(p.n_heads as nat, |h: int| r.at_head(q, h, 0, dim));
    let ks1 = Seq::new(
        p.n_heads as nat,
        |h: int| Seq::new(m as nat, |j: int| r.at_head(k, h / per, j, dim)),
    );
    let vs1 = Seq::new(
        p.n_heads as nat,
        |h: int| Seq::new(m as nat, |j: int| r.at_head(v, h / per, j, dim)),
    );
    assert forall|a: int| 0 <= a < p.n_heads implies 0 <= #[trigger] (a / per) < p.kv_heads by {
        lemma_shared_head(a, p.n_heads as int, p.kv_heads as int);
    }
    assert forall|a: int| 0 <= a < p.n_heads implies #[trigger] qs1[a] == qs[a] by {
        law_heads_are_projected(r, h, b.q_proj, 1, p.n_heads, p.head_dim, hidden, 0, a);
    }
    assert(qs1 =~= qs);
    assert forall|a: int| 0 <= a < p.n_heads implies #[trigger] ks1[a] == ks[a] by {
        assert(0 <= a / per < p.kv_heads);
        assert forall|j: int| 0 <= j < n implies #[trigger] ks1[a][j] == ks[a][j] by {
            lemma_kept_head(r, h, b.k_proj, li, Part::Keys, p, hidden, a / per, j);
        }
        assert(ks1[a] =~= ks[a]);
    }
    assert(ks1 =~= ks);
    assert forall|a: int| 0 <= a < p.n_heads implies #[trigger] vs1[a] == vs[a] by {
        assert(0 <= a / per < p.kv_heads);
        assert forall|j: int| 0 <= j < n implies #[trigger] vs1[a][j] == vs[a][j] by {
            lemma_kept_head(r, h, b.v_proj, li, Part::Values, p, hidden, a / per, j);
        }
        assert(vs1[a] =~= vs[a]);
    }
    assert(vs1 =~= vs);
    assert(r.seen(MaskKind::Absent, 0, m) =~= Seq::new(n, |j: int| true));
}

/// What the shared feed-forward network makes of a row.
pub open spec fn shared<A>(r: Reading<A>, mlp: SharedMlp<A>, row: Seq<real>, c: int) -> real {
    let inner = Seq::new(
        mlp.hidden as nat,
        |d: int|
            r.silu(r.product(mlp.input, row, d)) * r.product(mlp.input, row, mlp.hidden + d),
    );
    r.product(mlp.output, inner, c)
}

/// The shared feed-forward network multiplies the second half of what its first matrix
/// gives by the first half, put through the sigmoid linear unit.
pub proof fn law_shared_network<A>(
    r: Reading<A>,
    x: Term<A>,
    l: GraniteLayer<A>,
    p: Pass,
    hidden: int,
    c: int,
)
    requires
        layer_shaped(l, r.shaping, p, hidden),
        0 <= hidden,
        r.shaping.shape(x) == Some(seq![1int, hidden]),
    ensures
        r.value(shared_term(x, l.shared_mlp))(0, 0, 0, c) == shared(
            r,
            l.shared_mlp,
            r.row(x, 0),
            c,
        ),
{
    let s = r.shaping;
    let mlp = l.shared_mlp;
    let inner = mlp.hidden as int;
    let row = r.row(x, 0);
    let both = x.linear(mlp.input);
    graph::lemma_linear(s, x, mlp.input, 1, 2 * inner, hidden);
    let last = seq![1int, 2 * inner];
    assert(last.drop_last().push(inner) =~= seq![1int, inner]);
    let first = both.piece(seq![mlp.hidden], 0);
    let second = both.piece(seq![mlp.hidden], 1);
    assert(s.shape(first) == Some(seq![1int, inner]));
    assert(s.shape(second) == Some(seq![1int, inner]));
    assert(s.shape(first.silu()) == s.shape(first));
    let h = halves(both, mlp.hidden);
    assert(s.shape(h) == Some(seq![1int, inner]));
    let vx = r.value(x);
    assert(Seq::new(hidden as nat, |j: int| vx(0, 0, 0, j)) =~= row);
    let vh = r.value(h);
    let got = Seq::new(inner as nat, |d: int| vh(0, 0, 0, d));
    let want = Seq::new(
        mlp.hidden as nat,
        |d: int|
            r.silu(r.product(mlp.input, row, d)) * r.product(mlp.input, row, mlp.hidden + d),
    );
    assert forall|d: int| 0 <= d < inner implies #[trigger] got[d] == want[d] by {
        assert(r.value(first)(0, 0, 0, d) == r.value(both)(0, 0, 0, 0 + d));
        assert(r.value(second)(0, 0, 0, d) == r.value(both)(0, 0, 0, inner + d));
        assert(r.value(first.silu())(0, 0, 0, d) == r.silu(r.value(first)(0, 0, 0, d)));
    }
    assert(got =~= want);
}

/// What a Mamba block's convolution gives, with its bias where it has one.
pub open spec fn convolved<A>(
    r: Reading<A>,
    m: MambaMixer<A>,
    li: usize,
    row: Seq<real>,
) -> Seq<real> {
    let z = m.sizes;
    let taken = Seq::new(
        z.conv_dim as nat,
        |j: int| r.product(m.in_proj, row, z.intermediate + j),
    );
    Seq::new(z.conv_dim as nat, |j: int| (r.conv)(li, m, m.conv_bias is Some, taken, j))
}

/// What a Mamba block's recurrent update gives. The result of the convolution is its
/// input, then what enters the state, then what leaves it; and the last numbers of the
/// first projection are the time steps.
pub open spec fn updated<A>(
    r: Reading<A>,
    m: MambaMixer<A>,
    li: usize,
    row: Seq<real>,
    j: int,
) -> real {
    let z = m.sizes;
    let dim = z.head_dim as int;
    let conv = convolved(r, m, li, row);
    (r.ssm)(
        li,
        m,
        Seq::new(z.num_heads as nat, |h: int| Seq::new(dim as nat, |d: int| conv[h * dim + d])),
        Seq::new(z.state_size as nat, |d: int| conv[z.intermediate + d]),
        Seq::new(z.state_size as nat, |d: int| conv[z.intermediate + z.state_size + d]),
        Seq::new(
            z.num_heads as nat,
            |h: int|
                (r.timestep)(
                    r.product(m.in_proj, row, z.intermediate + z.conv_dim + h) + (r.numbers)(
                        m.dt_bias,
                        h,
                    ),
                ),
        ),
        j / dim,
        j % dim,
    )
}

/// What a Mamba block gives: the recurrent update, multiplied by the first numbers of
/// the first projection, put through the sigmoid linear unit.
pub open spec fn mamba_at<A>(
    r: Reading<A>,
    m: MambaMixer<A>,
    li: usize,
    row: Seq<real>,
    c: int,
) -> real {
    let inner = Seq::new(
        m.sizes.intermediate as nat,
        |j: int| updated(r, m, li, row, j) * r.silu(r.product(m.in_proj, row, j)),
    );
    r.product(m.out_proj, r.normed_row(m.norm, inner), c)
}

/// A row keeps its numbers in another shape with a single row.
proof fn lemma_same_row<A>(r: Reading<A>, t: Term<A>, to: Seq<i32>, n: int, d: int)
    requires
        axis(r.extent(t), 0) == n,
        axis(r.extent(t), 1) == 1,
        axis(r.extent(t), 2) == 1,
        axis(graph::ints(to), 0) == n,
        axis(graph::ints(to), 1) == 1,
        axis(graph::ints(to), 2) == 1,
        0 <= d < n,
    ensures
        r.value(t.reshape(to))(0, 0, 0, d) == r.value(t)(0, 0, 0, d),
{
    let f = flat(graph::ints(to), 0, 0, 0, d);
    let zero = (0 * axis(graph::ints(to), 2) + 0) * axis(graph::ints(to), 1) + 0;
    assert(zero == 0);
    assert(zero * n == 0) by (nonlinear_arith)
        requires
            zero == 0,
    ;
    assert(f == d);
    lemma_below(d, n);
    lemma_below(0, 1);
}

proof fn lemma_conv_value<A>(
    r: Reading<A>,
    x: Term<A>,
    m: MambaMixer<A>,
    li: usize,
    hidden: int,
    d: int,
)
    requires
        mamba_shaped(m, r.shaping, hidden),
        r.shaping.shape(x) == Some(seq![1int, m.sizes.conv_dim as int]),
        0 <= d < m.sizes.conv_dim,
    ensures
        r.value(conv_term(x, m, li))(0, 0, 0, d) == (r.conv)(
            li,
            m,
            m.conv_bias is Some,
            r.row(x, 0),
            d,
        ),
{
    let s = r.shaping;
    let c = m.sizes.conv_dim;
    let b = x.batch();
    assert(seq![1int] + seq![1int, c as int] =~= seq![1int, 1int, c as int]);
    assert(s.shape(b) == Some(seq![1int, 1int, c as int]));
    let vx = r.value(x);
    assert(r.row(x, 0) =~= Seq::new(c as nat, |j: int| vx(0, 0, 0, j)));
    if m.conv_bias is Some {
        graph::lemma_size3(1, 1, c as int);
        graph::lemma_size1(c as int);
        assert(graph::ints(seq![c]) =~= seq![c as int]);
        let f = b.reshape(seq![c]);
        assert(s.shape(f) == Some(seq![c as int]));
        let y = f.conv_fused(li, m);
        assert(s.shape(y) == Some(seq![c as int]));
        graph::lemma_size2(1, c as int);
        assert(graph::ints(seq![1i32, c]) =~= seq![1int, c as int]);
        let vf = r.value(f);
        assert forall|j: int| 0 <= j < c implies (#[trigger] vf(0, 0, 0, j)) == vx(0, 0, 0, j) by {
            lemma_same_row(r, b, seq![c], c as int, j);
            assert(r.value(b)(0, 0, 0, j) == vx(0, 0, 0, j));
        }
        assert(Seq::new(c as nat, |j: int| vf(0, 0, 0, j)) =~= r.row(x, 0));
        lemma_same_row(r, y, seq![1i32, c], c as int, d);
        assert(r.value(y)(0, 0, 0, d) == (r.conv)(
            li,
            m,
            m.conv_bias is Some,
            r.row(x, 0),
            d,
        ));
    } else {
        let vb = r.value(b);
        assert(Seq::new(c as nat, |j: int| vb(0, 0, 0, j)) =~= r.row(x, 0));
    }
}

proof fn lemma_ssm_value<A>(
    r: Reading<A>,
    conv: Term<A>,
    dt: Term<A>,
    m: MambaMixer<A>,
    li: usize,
    hidden: int,
    row: Seq<real>,
    j: int,
)
    requires
        mamba_shaped(m, r.shaping, hidden),
        r.shaping.shape(conv) == Some(seq![1int, m.sizes.conv_dim as int]),
        r.shaping.shape(dt) == Some(seq![1int, m.sizes.num_heads as int]),
        forall|d: int|
            0 <= d < m.sizes.conv_dim ==> (#[trigger] r.value(conv)(0, 0, 0, d)) == convolved(
                r,
                m,
                li,
                row,
            )[d],
        forall|d: int|
            0 <= d < m.sizes.num_heads ==> (#[trigger] r.value(dt)(0, 0, 0, d)) == r.product(
                m.in_proj,
                row,
                m.sizes.intermediate + m.sizes.conv_dim + d,
            ),
        0 < m.sizes.head_dim,
        0 <= j < m.sizes.intermediate,
    ensures
        r.value(ssm_term(conv, dt, m, li))(0, 0, 0, j) == updated(r, m, li, row, j),
{
    let s = r.shaping;
    let z = m.sizes;
    let dim = z.head_dim as int;
    let heads = z.num_heads as int;
    let at = conv_cuts(z);
    let last = seq![1int, z.conv_dim as int];
    let p0 = conv.piece(at, 0);
    let p1 = conv.piece(at, 1);
    let p2 = conv.piece(at, 2);
    assert(last.drop_last().push(z.intermediate as int) =~= seq![1int, z.intermediate as int]);
    assert(last.drop_last().push(z.state_size as int) =~= seq![1int, z.state_size as int]);
    assert(s.shape(p0) == Some(seq![1int, z.intermediate as int]));
    assert(s.shape(p1) == Some(seq![1int, z.state_size as int]));
    assert(s.shape(p2) == Some(seq![1int, z.state_size as int]));
    graph::lemma_size2(1, z.intermediate as int);
    graph::lemma_size2(heads, dim);
    assert(graph::ints(seq![z.num_heads, z.head_dim]) =~= seq![heads, dim]);
    let h = p0.reshape(seq![z.num_heads, z.head_dim]);
    assert(s.shape(h) == Some(seq![heads, dim]));
    granite_forward::lemma_flatten(s, p1, z.state_size);
    granite_forward::lemma_flatten(s, p2, z.state_size);
    let t = dt.timestep(m.dt_bias);
    assert(s.shape(t) == Some(seq![1int, heads]));
    granite_forward::lemma_flatten(s, t, z.num_heads);
    let b = p1.reshape(seq![z.state_size]);
    let c = p2.reshape(seq![z.state_size]);
    let u = t.reshape(seq![z.num_heads]);
    let y = h.ssm_update(b, c, u, li, m);
    assert(s.shape(y) == Some(seq![heads, dim]));
    assert(graph::ints(seq![1i32, z.intermediate]) =~= seq![1int, z.intermediate as int]);
    assert(graph::ints(seq![z.state_size]) =~= seq![z.state_size as int]);
    assert(graph::ints(seq![z.num_heads]) =~= seq![heads]);

    let cv = convolved(r, m, li, row);
    let vh = r.value(h);
    let vb = r.value(b);
    let vc = r.value(c);
    let vu = r.value(u);
    let hs = Seq::new(heads as nat, |a: int| Seq::new(dim as nat, |d: int| vh(0, 0, a, d)));
    let hs1 = Seq::new(heads as nat, |a: int| Seq::new(dim as nat, |d: int| cv[a * dim + d]));
    assert forall|a: int| 0 <= a < heads implies #[trigger] hs[a] == hs1[a] by {
        assert forall|d: int| 0 <= d < dim implies #[trigger] hs[a][d] == hs1[a][d] by {
            let f = flat(seq![heads, dim], 0, 0, a, d);
            assert(f == a * dim + d);
            assert(0 <= a * dim + d < heads * dim) by (nonlinear_arith)
                requires
                    0 <= a < heads,
                    0 <= d < dim,
            ;
            lemma_below(f, z.intermediate as int);
            lemma_below(0, 1);
            assert(r.value(h)(0, 0, a, d) == r.value(p0)(0, 0, 0, f));
            assert(r.value(p0)(0, 0, 0, f) == r.value(conv)(0, 0, 0, 0 + f));
        }
        assert(hs[a] =~= hs1[a]);
    }
    assert(hs =~= hs1);
    let bs = Seq::new(z.state_size as nat, |d: int| vb(0, 0, 0, d));
    let bs1 = Seq::new(z.state_size as nat, |d: int| cv[z.intermediate + d]);
    assert forall|d: int| 0 <= d < z.state_size implies #[trigger] bs[d] == bs1[d] by {
        lemma_same_row(r, p1, seq![z.state_size], z.state_size as int, d);
        assert(r.value(p1)(0, 0, 0, d) == r.value(conv)(0, 0, 0, z.intermediate + d));
    }
    assert(bs =~= bs1);
    let cs = Seq::new(z.state_size as nat, |d: int| vc(0, 0, 0, d));
    let cs1 = Seq::new(z.state_size as nat, |d: int| cv[z.intermediate + z.state_size + d]);
    assert forall|d: int| 0 <= d < z.state_size implies #[trigger] cs[d] == cs1[d] by {
        lemma_same_row(r, p2, seq![z.state_size], z.state_size as int, d);
        assert(r.value(p2)(0, 0, 0, d) == r.value(conv)(
            0,
            0,
            0,
            z.intermediate + z.state_size + d,
        ));
    }
    assert(cs =~= cs1);
    let us = Seq::new(heads as nat, |a: int| vu(0, 0, 0, a));
    let us1 = Seq::new(
        z.num_heads as nat,
        |a: int|
            (r.timestep)(
                r.product(m.in_proj, row, z.intermediate + z.conv_dim + a) + (r.numbers)(
                    m.dt_bias,
                    a,
                ),
            ),
    );
    assert forall|a: int| 0 <= a < heads implies #[trigger] us[a] == us1[a] by {
        lemma_same_row(r, t, seq![z.num_heads], heads, a);
        assert(r.value(t)(0, 0, 0, a) == (r.timestep)(
            r.value(dt)(0, 0, 0, a) + (r.numbers)(m.dt_bias, a),
        ));
    }
    assert(us =~= us1);
    let f = flat(seq![1int, z.intermediate as int], 0, 0, 0, j);
    assert(f == j);
    assert(0 <= j / dim < heads) by (nonlinear_arith)
        requires
            0 <= j < heads * dim,
            0 < dim,
    ;
    lemma_below(j / dim, heads);
    lemma_below(0, 1);
    let out = y.reshape(seq![1i32, z.intermediate]);
    assert(r.value(out)(0, 0, 0, j) == r.value(y)(0, 0, j / dim, j % dim));
}

/// A Mamba block draws its three inputs from the first projection: first what its result
/// is multiplied by, then what the convolution takes, and then the time steps.
pub proof fn law_mamba_block<A>(
    r: Reading<A>,
    h: Term<A>,
    m: MambaMixer<A>,
    li: usize,
    hidden: int,
    c: int,
)
    requires
        mamba_shaped(m, r.shaping, hidden),
        0 <= hidden,
        0 < m.sizes.head_dim,
        r.shaping.shape(h) == Some(seq![1int, hidden]),
    ensures
        r.value(mamba_term(h, m, li))(0, 0, 0, c) == mamba_at(r, m, li, r.row(h, 0), c),
{
    let s = r.shaping;
    let z = m.sizes;
    let row = r.row(h, 0);
    let whole = z.intermediate + z.conv_dim + z.num_heads;
    let projected = h.linear(m.in_proj);
    graph::lemma_linear(s, h, m.in_proj, 1, whole, hidden);
    let at = input_cuts(z);
    let last = seq![1int, whole];
    assert(last.drop_last().push(z.intermediate as int) =~= seq![1int, z.intermediate as int]);
    assert(last.drop_last().push(z.conv_dim as int) =~= seq![1int, z.conv_dim as int]);
    assert(last.drop_last().push(z.num_heads as int) =~= seq![1int, z.num_heads as int]);
    let p0 = projected.piece(at, 0);
    let p1 = projected.piece(at, 1);
    let p2 = projected.piece(at, 2);
    assert(s.shape(p0) == Some(seq![1int, z.intermediate as int]));
    assert(s.shape(p1) == Some(seq![1int, z.conv_dim as int]));
    assert(s.shape(p2) == Some(seq![1int, z.num_heads as int]));
    granite_forward::lemma_conv(s, p1, m, li, hidden);
    let conv = conv_term(p1, m, li);
    granite_forward::lemma_ssm(s, conv, p2, m, li, hidden);
    let y = ssm_term(conv, p2, m, li);
    let g = p0.silu();
    assert(s.shape(g) == Some(seq![1int, z.intermediate as int]));
    let w = y.times(g);
    assert(s.shape(w) == Some(seq![1int, z.intermediate as int]));
    let n = w.norm(m.norm);
    assert(s.shape(n) == Some(seq![1int, z.intermediate as int]));

    let vx = r.value(h);
    assert(Seq::new(hidden as nat, |j: int| vx(0, 0, 0, j)) =~= row);
    let vp = r.value(projected);
    assert(forall|j: int| (#[trigger] vp(0, 0, 0, j)) == r.product(m.in_proj, row, j));
    let taken = Seq::new(
        z.conv_dim as nat,
        |j: int| r.product(m.in_proj, row, z.intermediate + j),
    );
    assert forall|j: int| 0 <= j < z.conv_dim implies (#[trigger] r.row(p1, 0)[j]) == taken[j] by {
        assert(r.value(p1)(0, 0, 0, j) == vp(0, 0, 0, z.intermediate + j));
    }
    assert(r.row(p1, 0) =~= taken);
    assert forall|d: int| 0 <= d < z.conv_dim implies (#[trigger] r.value(conv)(0, 0, 0, d))
        == convolved(r, m, li, row)[d] by {
        lemma_conv_value(r, p1, m, li, hidden, d);
    }
    assert forall|d: int| 0 <= d < z.num_heads implies (#[trigger] r.value(p2)(0, 0, 0, d))
        == r.product(m.in_proj, row, z.intermediate + z.conv_dim + d) by {
        assert(r.value(p2)(0, 0, 0, d) == vp(0, 0, 0, z.intermediate + z.conv_dim + d));
    }
    let vw = r.value(w);
    let got = Seq::new(z.intermediate as nat, |j: int| vw(0, 0, 0, j));
    let inner = Seq::new(
        z.intermediate as nat,
        |j: int| updated(r, m, li, row, j) * r.silu(r.product(m.in_proj, row, j)),
    );
    assert forall|j: int| 0 <= j < z.intermediate implies #[trigger] got[j] == inner[j] by {
        lemma_ssm_value(r, conv, p2, m, li, hidden, row, j);
        assert(r.value(p0)(0, 0, 0, j) == vp(0, 0, 0, 0 + j));
        assert(r.value(g)(0, 0, 0, j) == r.silu(r.value(p0)(0, 0, 0, j)));
        assert(r.value(w)(0, 0, 0, j) == r.value(y)(0, 0, 0, j) * r.value(g)(0, 0, 0, j));
    }
    assert(got =~= inner);
    let vn = r.value(n);
    let normed = Seq::new(z.intermediate as nat, |j: int| vn(0, 0, 0, j));
    assert(normed =~= r.normed_row(m.norm, inner));
}

/// What a layer's block gives.
pub open spec fn block_at<A>(
    r: Reading<A>,
    b: LayerBlock<A>,
    li: usize,
    p: Pass,
    row: Seq<real>,
    c: int,
) -> real {
    match b {
        LayerBlock::Mamba(m) => mamba_at(r, m, li, row, c),
        LayerBlock::Attention(a) => attention_at(r, a, li, p, row, c),
    }
}

/// The residual stream behind a layer's block: what came in, and `by` times what the
/// block gives of it.
pub open spec fn behind_block<A>(
    r: Reading<A>,
    l: GraniteLayer<A>,
    li: usize,
    p: Pass,
    by: real,
    row: Seq<real>,
) -> Seq<real> {
    Seq::new(
        row.len(),
        |c: int| row[c] + block_at(r, l.block, li, p, r.normed_row(l.input_norm, row), c) * by,
    )
}

/// The residual stream behind a layer: what is behind its block, and `by` times what the
/// experts and the shared feed-forward network give of that.
pub open spec fn behind<A>(
    r: Reading<A>,
    l: GraniteLayer<A>,
    li: usize,
    p: Pass,
    by: real,
    row: Seq<real>,
) -> Seq<real> {
    let mid = behind_block(r, l, li, p, by, row);
    let n = r.normed_row(l.post_norm, mid);
    Seq::new(
        row.len(),
        |c: int| mid[c] + (mixed(r, l.moe, n, c) + shared(r, l.shared_mlp, n, c)) * by,
    )
}

proof fn lemma_normed<A>(r: Reading<A>, x: Term<A>, norm: RmsNorm<A>, hidden: int)
    requires
        r.shaping.shape(x) == Some(seq![1int, hidden]),
        r.shaping.is_norm(norm, hidden),
        0 <= hidden,
    ensures
        r.shaping.shape(x.norm(norm)) == Some(seq![1int, hidden]),
        r.row(x.norm(norm), 0) == r.normed_row(norm, r.row(x, 0)),
{
    assert(r.row(x.norm(norm), 0) =~= r.normed_row(norm, r.row(x, 0)));
}

/// Whether a layer can be read.
pub open spec fn layer_readable<A>(r: Reading<A>, l: GraniteLayer<A>, li: int, p: Pass) -> bool {
    &&& laid_side_by_side(r, l.moe, li as usize)
    &&& match l.block {
        LayerBlock::Mamba(m) => 0 < m.sizes.head_dim,
        LayerBlock::Attention(_) => pass_consistent(p),
    }
}

/// The residual stream behind a layer is the sum of what came in, what the block gives of
/// it, and what the two feed-forward networks give of the sum of both, each by the factor
/// for residuals.
pub proof fn law_a_layer_adds<A>(
    r: Reading<A>,
    x: Term<A>,
    l: GraniteLayer<A>,
    li: usize,
    p: Pass,
    residual: Factor,
    hidden: int,
)
    requires
        readable(r, p, hidden),
        layer_readable(r, l, li as int, p),
        layer_shaped(l, r.shaping, p, hidden),
        r.shaping.shape(x) == Some(seq![1int, hidden]),
    ensures
        r.shaping.shape(layer_term(x, l, li, p, residual)) == Some(seq![1int, hidden]),
        r.row(layer_term(x, l, li, p, residual), 0) == behind(
            r,
            l,
            li,
            p,
            r.factor(residual),
            r.row(x, 0),
        ),
{
    let s = r.shaping;
    let wide = Some(seq![1int, hidden]);
    let row = r.row(x, 0);
    let by = r.factor(residual);
    let h = x.norm(l.input_norm);
    lemma_normed(r, x, l.input_norm, hidden);
    match l.block {
        LayerBlock::Mamba(m) => granite_forward::lemma_mamba(s, h, m, li, hidden),
        LayerBlock::Attention(b) => granite_forward::lemma_attention(s, h, b, li, p, hidden),
    }
    let b = block_term(h, l.block, li, p);
    let bs = b.scale(residual);
    assert(s.shape(bs) == wide);
    let z = x.plus(bs);
    assert(s.shape(z) == wide);
    let mid = behind_block(r, l, li, p, by, row);
    assert forall|c: int| 0 <= c < hidden implies (#[trigger] r.row(z, 0)[c]) == mid[c] by {
        match l.block {
            LayerBlock::Mamba(m) => law_mamba_block(r, h, m, li, hidden, c),
            LayerBlock::Attention(a) => law_attention_compares_keys_and_averages_values(
                r,
                h,
                a,
                li,
                p,
                hidden,
                c,
            ),
        }
        assert(r.value(bs)(0, 0, 0, c) == r.value(b)(0, 0, 0, c) * by);
        assert(r.value(z)(0, 0, 0, c) == r.value(x)(0, 0, 0, c) + r.value(bs)(0, 0, 0, c));
    }
    assert(r.row(z, 0) =~= mid);
    let n = z.norm(l.post_norm);
    lemma_normed(r, z, l.post_norm, hidden);
    granite_forward::lemma_moe(s, n, l, li, p, hidden);
    granite_forward::lemma_shared(s, n, l, p, hidden);
    let moe = moe_term(n, l.moe, li);
    let sh = shared_term(n, l.shared_mlp);
    let both = moe.plus(sh);
    assert(s.shape(both) == wide);
    let scaled = both.scale(residual);
    assert(s.shape(scaled) == wide);
    let out = z.plus(scaled);
    assert(s.shape(out) == wide);
    assert(out == layer_term(x, l, li, p, residual));
    let want = behind(r, l, li, p, by, row);
    let nr = r.row(n, 0);
    assert forall|c: int| 0 <= c < hidden implies (#[trigger] r.row(out, 0)[c]) == want[c] by {
        lemma_moe_value(r, n, l, li, p, hidden, c);
        law_shared_network(r, n, l, p, hidden, c);
        assert(r.value(both)(0, 0, 0, c) == r.value(moe)(0, 0, 0, c) + r.value(sh)(0, 0, 0, c));
        assert(r.value(scaled)(0, 0, 0, c) == r.value(both)(0, 0, 0, c) * by);
        assert(r.value(out)(0, 0, 0, c) == r.value(z)(0, 0, 0, c) + r.value(scaled)(0, 0, 0, c));
        assert(r.row(z, 0)[c] == mid[c]);
    }
    assert(r.row(out, 0) =~= want);
}

/// The residual stream behind the first `k` layers: it begins with the row of the
/// embedding table that the token names, by the factor for embeddings.
pub open spec fn stream<A>(
    r: Reading<A>,
    model: Granite<A>,
    token: i32,
    p: Pass,
    hidden: int,
    k: nat,
) -> Seq<real>
    decreases k,
{
    if k == 0 {
        Seq::new(
            hidden as nat,
            |c: int|
                (r.matrix)(model.embed, token as int, c) * (r.number)(
                    model.cfg.embedding_multiplier,
                ),
        )
    } else {
        behind(
            r,
            model.layers@[k - 1],
            (k - 1) as usize,
            p,
            (r.number)(model.cfg.residual_multiplier),
            stream(r, model, token, p, hidden, (k - 1) as nat),
        )
    }
}

proof fn lemma_stream<A>(
    r: Reading<A>,
    model: Granite<A>,
    token: i32,
    p: Pass,
    hidden: int,
    vocab: int,
    k: nat,
)
    requires
        readable(r, p, hidden),
        model_shaped(model, r.shaping, p, hidden, vocab),
        forall|i: int|
            0 <= i < model.layers@.len() ==> layer_readable(
                r,
                #[trigger] model.layers@[i],
                i,
                p,
            ),
        k <= model.layers@.len(),
    ensures
        ({
            let x = Term::Lookup(model.embed, Box::new(Term::Tokens(seq![token]))).scale(
                Factor::Given(model.cfg.embedding_multiplier),
            );
            let y = layers_term(
                x,
                model.layers@,
                p,
                Factor::Given(model.cfg.residual_multiplier),
                k,
            );
            &&& r.shaping.shape(y) == Some(seq![1int, hidden])
            &&& r.row(y, 0) == stream(r, model, token, p, hidden, k)
        }),
    decreases k,
{
    let t = Term::Tokens(seq![token]);
    assert(r.shaping.shape(t) == Some(seq![1int]));
    let x0 = Term::Lookup(model.embed, Box::new(t));
    assert(r.shaping.shape(x0) == Some(seq![1int, hidden]));
    let x = x0.scale(Factor::Given(model.cfg.embedding_multiplier));
    assert(r.shaping.shape(x) == Some(seq![1int, hidden]));
    let residual = Factor::Given(model.cfg.residual_multiplier);
    if k == 0 {
        let want = stream(r, model, token, p, hidden, 0);
        assert forall|c: int| 0 <= c < hidden implies (#[trigger] r.row(x, 0)[c]) == want[c] by {
            assert(r.ids(t)[0] == token);
            assert(r.value(x0)(0, 0, 0, c) == (r.matrix)(model.embed, token as int, c));
        }
        assert(r.row(x, 0) =~= want);
    } else {
        lemma_stream(r, model, token, p, hidden, vocab, (k - 1) as nat);
        let y = layers_term(x, model.layers@, p, residual, (k - 1) as nat);
        law_a_layer_adds(r, y, model.layers@[k - 1], (k - 1) as usize, p, residual, hidden);
    }
}

/// The logits after a token are the products of the rows of the embedding table with the
/// row behind the last layer, normalised, divided by the scale of the logits; attention
/// sees the token and all those before it, under the heads and by the multiplier that the
/// configuration gives.
pub proof fn law_logits<A>(
    r: Reading<A>,
    model: Granite<A>,
    token: i32,
    cached: int,
    hidden: int,
    vocab: int,
    c: int,
)
    requires
        0 <= cached < i32::MAX,
        0 < model.cfg.num_attention_heads <= i32::MAX,
        readable(r, pass_of(model, cached), hidden),
        model_shaped(model, r.shaping, pass_of(model, cached), hidden, vocab),
        forall|i: int|
            0 <= i < model.layers@.len() ==> layer_readable(
                r,
                #[trigger] model.layers@[i],
                i,
                pass_of(model, cached),
            ),
    ensures
        ({
            let heads = model.cfg.num_attention_heads as int;
            let kv_heads = match model.cfg.num_key_value_heads {
                Some(n) => n as int,
                None => heads,
            };
            let dim = match model.cfg.head_dim {
                Some(n) => n as int,
                None => model.cfg.hidden_size as int / heads,
            };
            let p = Pass {
                n_heads: heads as i32,
                kv_heads: kv_heads as i32,
                head_dim: dim as i32,
                q_dim: (heads * dim) as i32,
                span: Span { seq_len: 1, offset: cached as i32, new_end: (cached + 1) as i32 },
                scale: Factor::Given(model.cfg.attention_multiplier),
            };
            let last = stream(r, model, token, p, hidden, model.layers@.len());
            r.value(forward_term(model, token, pass_of(model, cached)))(0, 0, 0, c) == r.product(
                model.embed,
                r.normed_row(model.norm, last),
                c,
            ) * (1real / (r.number)(model.cfg.logits_scaling))
        }),
{
    let p = pass_of(model, cached);
    let x = Term::Lookup(model.embed, Box::new(Term::Tokens(seq![token]))).scale(
        Factor::Given(model.cfg.embedding_multiplier),
    );
    let residual = Factor::Given(model.cfg.residual_multiplier);
    lemma_stream(r, model, token, p, hidden, vocab, model.layers@.len());
    let y = layers_term(x, model.layers@, p, residual, model.layers@.len());
    lemma_normed(r, y, model.norm, hidden);
    let z = y.norm(model.norm);
    let vz = r.value(z);
    assert(Seq::new(hidden as nat, |j: int| vz(0, 0, 0, j)) =~= r.row(z, 0));
    let l = z.linear(model.embed);
    let by = Factor::Inverse(model.cfg.logits_scaling);
    assert(r.value(l)(0, 0, 0, c) == r.product(model.embed, r.row(z, 0), c));
    assert(r.value(l.scale(by))(0, 0, 0, c) == r.value(l)(0, 0, 0, c) * r.factor(by));
}

} // verus!
