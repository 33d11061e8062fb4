//! What a forward pass of Gemma 4 computes, in real numbers.

use vstd::prelude::*;

use crate::blocks;
use crate::blocks::{gated, turned, Activation};
use crate::float_bits::F32;
use crate::gemma::{ForwardPlan, Gemma4, Gemma4Layer, LayerType};
use crate::gemma_forward;
use crate::gemma_forward::{
    attention_term, forward_term, head_term, hidden_term, inputs_term, kv_shape, kv_term,
    layer_shaped, layer_stream, layers_stream, mask_of, merged, mlp_term, model_shaped,
    pass_of, shares_alike, turn, KvTerms, Pass,
};
use crate::graph;
use crate::graph::{Factor, MaskKind, Part, RopeBase, Term};
use crate::meaning::{
    law_attention, law_feed_forward, law_heads_are_turned, lemma_cut_into_heads,
    lemma_shared_head, Reading,
};
use crate::weights::RmsNorm;

verus! {

/// The keys and values of a layer: for each head and each position a row.
pub struct Kv {
    pub k: Seq<Seq<Seq<real>>>,
    pub v: Seq<Seq<Seq<real>>>,
}

/// The residual stream behind some layers, and the keys and values of each.
pub struct Flow {
    pub rows: Seq<Seq<real>>,
    pub kvs: Seq<Kv>,
}

/// The frequencies that a layer turns its queries and keys by.
pub open spec fn frequencies(t: LayerType) -> RopeBase {
    if t == LayerType::Sliding {
        RopeBase::Sliding
    } else {
        RopeBase::Full
    }
}

/// The key of head `g` at position `j`: what the layer's buffer held, or the projection
/// of a new token by `k_proj`, normalised and turned for its position.
pub open spec fn key<A>(
    r: Reading<A>,
    l: Gemma4Layer<A>,
    li: usize,
    p: Pass,
    h: Seq<Seq<real>>,
    g: int,
    j: int,
) -> Seq<real> {
    let dim = l.head_dim as int;
    if j < p.span.offset {
        r.held_head(li, Part::Keys, g, j, dim)
    } else {
        r.turned_head(
            l.k_proj->0,
            l.k_norm->0,
            frequencies(l.layer_type),
            h[j - p.span.offset],
            dim,
            g,
            j,
        )
    }
}

/// The value of head `g` at position `j`: what the layer's buffer held, or the projection
/// of a new token by `v_proj`, brought to a mean square of one.
pub open spec fn value<A>(
    r: Reading<A>,
    l: Gemma4Layer<A>,
    li: usize,
    p: Pass,
    h: Seq<Seq<real>>,
    g: int,
    j: int,
) -> Seq<real> {
    let dim = l.head_dim as int;
    if j < p.span.offset {
        r.held_head(li, Part::Values, g, j, dim)
    } else {
        let head = r.headed(l.v_proj->0, h[j - p.span.offset], dim, g);
        Seq::new(dim as nat, |d: int| r.level(head, l.v_norm_eps, d))
    }
}

/// The keys and values that a layer uses: its own, or those of the layer that it shares
/// with.
pub open spec fn used<A>(
    r: Reading<A>,
    l: Gemma4Layer<A>,
    li: usize,
    p: Pass,
    h: Seq<Seq<real>>,
    kvs: Seq<Kv>,
) -> Kv {
    let n = p.span.new_end as nat;
    if l.has_kv {
        Kv {
            k: Seq::new(
                l.kv_heads as nat,
                |g: int| Seq::new(n, |j: int| key(r, l, li, p, h, g, j)),
            ),
            v: Seq::new(
                l.kv_heads as nat,
                |g: int| Seq::new(n, |j: int| value(r, l, li, p, h, g, j)),
            ),
        }
    } else {
        kvs[l.previous_kv as int]
    }
}

/// What attention gives for token `i`: the queries of `q_proj`, normalised and turned,
/// are compared with the keys, and the values averaged.
pub open spec fn attention_at<A>(
    r: Reading<A>,
    l: Gemma4Layer<A>,
    p: Pass,
    h: Seq<Seq<real>>,
    kv: Kv,
    i: int,
    c: int,
) -> real {
    let dim = l.head_dim as int;
    let per = p.n_heads as int / l.kv_heads as int;
    let mask = if l.layer_type == LayerType::Sliding {
        p.sliding_mask
    } else {
        p.full_mask
    };
    r.attention(
        Seq::new(
            p.n_heads as nat,
            |a: int|
                r.turned_head(
                    l.q_proj,
                    l.q_norm,
                    frequencies(l.layer_type),
                    h[i],
                    dim,
                    a,
                    p.span.offset + i,
                ),
        ),
        Seq::new(p.n_heads as nat, |a: int| kv.k[a / per]),
        Seq::new(p.n_heads as nat, |a: int| kv.v[a / per]),
        1real,
        r.seen(mask, i, p.span.new_end as int),
        dim,
        l.o_proj,
        c,
    )
}

/// The rows that a layer's attention takes.
pub open spec fn taken<A>(r: Reading<A>, l: Gemma4Layer<A>, x: Seq<Seq<real>>) -> Seq<Seq<real>> {
    Seq::new(x.len(), |i: int| r.normed_row(l.input_norm, x[i]))
}

/// The keys and values of a layer, as read from the steps.
pub open spec fn read_kv<A>(r: Reading<A>, t: KvTerms<A>, l: Gemma4Layer<A>, p: Pass) -> Kv {
    let n = p.span.new_end as nat;
    let dim = l.head_dim as int;
    Kv {
        k: Seq::new(
            l.kv_heads as nat,
            |g: int| Seq::new(n, |j: int| r.at_head(t.k, g, j, dim)),
        ),
        v: Seq::new(
            l.kv_heads as nat,
            |g: int| Seq::new(n, |j: int| r.at_head(t.v, g, j, dim)),
        ),
    }
}

/// Whether a pass can be read.
pub open spec fn readable<A>(r: Reading<A>, p: Pass, hidden: int) -> bool {
    &&& r.sound()
    &&& r.shaping.mask == seq![p.span.seq_len as int, p.span.new_end as int]
    &&& 0 <= hidden
    &&& 0 < p.n_heads
    &&& 0 <= p.width
    &&& 0 <= p.span.seq_len
    &&& 0 <= p.span.offset
    &&& p.span.new_end == p.span.offset + p.span.seq_len
}

proof fn lemma_normed<A>(r: Reading<A>, x: Term<A>, norm: RmsNorm<A>, n: int, hidden: int)
    requires
        r.shaping.shape(x) == Some(seq![n, hidden]),
        r.shaping.is_norm(norm, hidden),
        0 <= hidden,
        0 <= n,
    ensures
        r.shaping.shape(x.norm(norm)) == Some(seq![n, hidden]),
        r.rows(x.norm(norm)) == Seq::new(n as nat, |i: int| r.normed_row(norm, r.rows(x)[i])),
        forall|i: int|
            0 <= i < n ==> (#[trigger] r.row(x.norm(norm), i)) == r.normed_row(norm, r.row(x, i)),
        forall|i: int| 0 <= i < n ==> #[trigger] r.rows(x)[i] == r.row(x, i),
        r.rows(x).len() == n,
{
    let y = x.norm(norm);
    assert forall|i: int| 0 <= i < n implies (#[trigger] r.row(y, i)) == r.normed_row(
        norm,
        r.row(x, i),
    ) by {
        assert(r.row(y, i) =~= r.normed_row(norm, r.row(x, i)));
    }
    assert(r.rows(y) =~= Seq::new(n as nat, |i: int| r.normed_row(norm, r.rows(x)[i])));
}

proof fn lemma_own_key<A>(
    r: Reading<A>,
    h: Term<A>,
    l: Gemma4Layer<A>,
    li: usize,
    p: Pass,
    hidden: int,
    kvs: Seq<KvTerms<A>>,
    g: int,
    j: int,
)
    requires
        readable(r, p, hidden),
        layer_shaped(l, r.shaping, p, hidden),
        0 < l.head_dim,
        l.has_kv,
        r.shaping.shape(h) == Some(seq![p.span.seq_len as int, hidden]),
        0 <= g < l.kv_heads,
        0 <= j < p.span.new_end,
    ensures
        r.at_head(kv_term(h, l, li, kvs, p).k, g, j, l.head_dim as int) == key(
            r,
            l,
            li,
            p,
            r.rows(h),
            g,
            j,
        ),
{
    let t = turned(h, l.k_proj->0, l.k_norm->0, turn(l.kv_heads, l, p.span));
    let u = t.keep(li, Part::Keys, l.kv_heads, l.head_dim, p.span);
    assert(kv_term(h, l, li, kvs, p).k == u);
    let i = j - p.span.offset;
    let got = r.at_head(u, g, j, l.head_dim as int);
    let want = key(r, l, li, p, r.rows(h), g, j);
    if 0 <= i {
        law_heads_are_turned(
            r,
            h,
            l.k_proj->0,
            l.k_norm->0,
            turn(l.kv_heads, l, p.span),
            hidden,
            i,
            g,
        );
        assert(r.rows(h)[i] == r.row(h, i));
        assert forall|d: int| 0 <= d < l.head_dim implies #[trigger] got[d] == want[d] by {
            assert(r.value(u)(0, g, j, d) == r.value(t)(0, g, i, d));
        }
    }
    assert(got =~= want);
}

proof fn lemma_own_value<A>(
    r: Reading<A>,
    h: Term<A>,
    l: Gemma4Layer<A>,
    li: usize,
    p: Pass,
    hidden: int,
    kvs: Seq<KvTerms<A>>,
    g: int,
    j: int,
)
    requires
        readable(r, p, hidden),
        layer_shaped(l, r.shaping, p, hidden),
        0 < l.head_dim,
        l.has_kv,
        r.shaping.shape(h) == Some(seq![p.span.seq_len as int, hidden]),
        0 <= g < l.kv_heads,
        0 <= j < p.span.new_end,
    ensures
        r.at_head(kv_term(h, l, li, kvs, p).v, g, j, l.head_dim as int) == value(
            r,
            l,
            li,
            p,
            r.rows(h),
            g,
            j,
        ),
{
    let s = r.shaping;
    let n = p.span.seq_len;
    let dim = l.head_dim as int;
    let w = l.v_proj->0;
    let v0 = h.linear(w);
    graph::lemma_linear(s, h, w, n as int, l.kv_heads * l.head_dim, hidden);
    graph::lemma_reshape_to_heads(s, v0, n, l.kv_heads, l.head_dim);
    let v1 = v0.reshape(seq![n, l.kv_heads, l.head_dim]);
    let v2 = v1.plain_norm(l.v_norm_eps);
    assert(s.shape(v2) == s.shape(v1));
    let v3 = v2.swap_first();
    let u = v3.keep(li, Part::Values, l.kv_heads, l.head_dim, p.span);
    assert(kv_term(h, l, li, kvs, p).v == u);
    let i = j - p.span.offset;
    let got = r.at_head(u, g, j, dim);
    let want = value(r, l, li, p, r.rows(h), g, j);
    if 0 <= i {
        let row = r.row(h, i);
        assert(r.rows(h)[i] == row);
        let vx = r.value(h);
        assert(Seq::new(hidden as nat, |c: int| vx(0, 0, i, c)) =~= row);
        let head = r.headed(w, row, dim, g);
        let vv = r.value(v1);
        let cut = Seq::new(dim as nat, |d: int| vv(0, i, g, d));
        assert forall|d: int| 0 <= d < dim implies #[trigger] cut[d] == head[d] by {
            lemma_cut_into_heads(r, v0, n, l.kv_heads, l.head_dim, i, g, d);
        }
        assert(cut =~= head);
        assert forall|d: int| 0 <= d < dim implies #[trigger] got[d] == want[d] by {
            assert(r.value(u)(0, g, j, d) == r.value(v3)(0, g, i, d));
            assert(r.value(v3)(0, g, i, d) == r.value(v2)(0, i, g, d));
        }
    }
    assert(got =~= want);
}

proof fn lemma_used<A>(
    r: Reading<A>,
    h: Term<A>,
    layers: Seq<Gemma4Layer<A>>,
    li: usize,
    kvs: Seq<KvTerms<A>>,
    held: Seq<Kv>,
    p: Pass,
    hidden: int,
)
    requires
        readable(r, p, hidden),
        li < layers.len(),
        layer_shaped(layers[li as int], r.shaping, p, hidden),
        0 < layers[li as int].head_dim,
        shares_alike(layers, li as int),
        r.shaping.shape(h) == Some(seq![p.span.seq_len as int, hidden]),
        kvs.len() == li,
        forall|j: int| 0 <= j < li ==> read_kv(r, #[trigger] kvs[j], layers[j], p) == held[j],
    ensures
        read_kv(r, kv_term(h, layers[li as int], li, kvs, p), layers[li as int], p) == used(
            r,
            layers[li as int],
            li,
            p,
            r.rows(h),
            held,
        ),
{
    let l = layers[li as int];
    let kv = kv_term(h, l, li, kvs, p);
    let got = read_kv(r, kv, l, p);
    let want = used(r, l, li, p, r.rows(h), held);
    if l.has_kv {
        let n = p.span.new_end as int;
        assert forall|g: int| 0 <= g < l.kv_heads implies #[trigger] got.k[g] == want.k[g] by {
            assert forall|j: int| 0 <= j < n implies #[trigger] got.k[g][j] == want.k[g][j] by {
                lemma_own_key(r, h, l, li, p, hidden, kvs, g, j);
            }
            assert(got.k[g] =~= want.k[g]);
        }
        assert forall|g: int| 0 <= g < l.kv_heads implies #[trigger] got.v[g] == want.v[g] by {
            assert forall|j: int| 0 <= j < n implies #[trigger] got.v[g][j] == want.v[g][j] by {
                lemma_own_value(r, h, l, li, p, hidden, kvs, g, j);
            }
            assert(got.v[g] =~= want.v[g]);
        }
        assert(got.k =~= want.k);
        assert(got.v =~= want.v);
    } else {
        let j = l.previous_kv as int;
        assert(read_kv(r, kvs[j], layers[j], p) == held[j]);
        assert(read_kv(r, kvs[j], layers[j], p) == read_kv(r, kvs[j], l, p));
    }
}

/// Attention compares the queries of `q_proj` with the keys of the layer, and averages
/// its values.
pub proof fn law_attention_compares_keys_and_averages_values<A>(
    r: Reading<A>,
    h: Term<A>,
    l: Gemma4Layer<A>,
    kv: KvTerms<A>,
    p: Pass,
    hidden: int,
    i: int,
    c: int,
)
    requires
        readable(r, p, hidden),
        layer_shaped(l, r.shaping, p, hidden),
        0 < l.head_dim,
        r.shaping.shape(h) == Some(seq![p.span.seq_len as int, hidden]),
        r.shaping.shape(kv.k) == Some(kv_shape(l, p)),
        r.shaping.shape(kv.v) == Some(kv_shape(l, p)),
        0 <= i < p.span.seq_len,
    ensures
        r.value(attention_term(h, l, kv, p))(0, 0, i, c) == attention_at(
            r,
            l,
            p,
            r.rows(h),
            read_kv(r, kv, l, p),
            i,
            c,
        ),
{
    let s = r.shaping;
    let dim = l.head_dim as int;
    let n = p.span.seq_len as int;
    let m = p.span.new_end as int;
    let t = turn(p.n_heads, l, p.span);
    let q = turned(h, l.q_proj, l.q_norm, t);
    blocks::lemma_turned(s, h, l.q_proj, l.q_norm, t, hidden);
    let mask = mask_of(l.layer_type, p);
    let q_dim = (p.n_heads * l.head_dim) as i32;
    law_attention(
        r,
        q,
        kv.k,
        kv.v,
        Factor::Given(F32 { bits: 0x3f80_0000 }),
        mask,
        p.span.seq_len,
        p.n_heads,
        l.kv_heads as int,
        m,
        l.head_dim,
        q_dim,
        l.o_proj,
        hidden,
        i,
        c,
    );
    let per = p.n_heads as int / l.kv_heads as int;
    let rows = r.rows(h);
    assert(rows[i] == r.row(h, i));
    let read = read_kv(r, kv, l, p);
    let qs = Seq::new(
        p.n_heads as nat,
        |a: int|
            r.turned_head(
                l.q_proj,
                l.q_norm,
                frequencies(l.layer_type),
                rows[i],
                dim,
                a,
                p.span.offset + i,
            ),
    );
    let qs1 = Seq::new(p.n_heads as nat, |a: int| r.at_head(q, a, i, dim));
    assert forall|a: int| 0 <= a < p.n_heads implies #[trigger] qs1[a] == qs[a] by {
        law_heads_are_turned(r, h, l.q_proj, l.q_norm, t, hidden, i, a);
        assert(qs1[a] =~= qs[a]);
    }
    assert(qs1 =~= qs);
    let ks = Seq::new(p.n_heads as nat, |a: int| read.k[a / per]);
    let vs = Seq::new(p.n_heads as nat, |a: int| read.v[a / per]);
    let ks1 = Seq::new(
        p.n_heads as nat,
        |a: int| Seq::new(m as nat, |j: int| r.at_head(kv.k, a / per, j, dim)),
    );
    let vs1 = Seq::new(
        p.n_heads as nat,
        |a: int| Seq::new(m as nat, |j: int| r.at_head(kv.v, a / per, j, dim)),
    );
    assert forall|a: int| 0 <= a < p.n_heads implies #[trigger] ks1[a] == ks[a] by {
        lemma_shared_head(a, p.n_heads as int, l.kv_heads as int);
        assert(ks1[a] =~= ks[a]);
    }
    assert forall|a: int| 0 <= a < p.n_heads implies #[trigger] vs1[a] == vs[a] by {
        lemma_shared_head(a, p.n_heads as int, l.kv_heads as int);
        assert(vs1[a] =~= vs[a]);
    }
    assert(ks1 =~= ks);
    assert(vs1 =~= vs);
}

/// The residual stream with what attention gives added to it, normalised.
pub open spec fn with_attention<A>(
    r: Reading<A>,
    l: Gemma4Layer<A>,
    p: Pass,
    x: Seq<Seq<real>>,
    kv: Kv,
) -> Seq<Seq<real>> {
    Seq::new(
        x.len(),
        |i: int|
            {
                let attn = Seq::new(
                    x[i].len(),
                    |c: int| attention_at(r, l, p, taken(r, l, x), kv, i, c),
                );
                Seq::new(
                    x[i].len(),
                    |c: int| x[i][c] + r.normed_row(l.post_attn_norm, attn)[c],
                )
            },
    )
}

/// A row with what the feed-forward network gives of it added, normalised before and
/// after.
pub open spec fn with_network<A>(r: Reading<A>, l: Gemma4Layer<A>, row: Seq<real>) -> Seq<real> {
    let inner = r.shaping.rows(l.gate_proj);
    let fed = Seq::new(
        row.len(),
        |c: int|
            r.fed_forward(
                Activation::Gelu,
                l.gate_proj,
                l.up_proj,
                l.down_proj,
                inner,
                r.normed_row(l.pre_ffn_norm, row),
                c,
            ),
    );
    Seq::new(row.len(), |c: int| row[c] + r.normed_row(l.post_ffn_norm, fed)[c])
}

/// A row with what the layer's own input gives added, by how far the row lets it
/// through, and multiplied by the scalar of the layer.
pub open spec fn with_own_input<A>(
    r: Reading<A>,
    l: Gemma4Layer<A>,
    own: Seq<real>,
    row: Seq<real>,
) -> Seq<real> {
    let through = Seq::new(
        own.len(),
        |w: int| (r.gelu)(r.product(l.per_layer_input_gate, row, w)) * own[w],
    );
    let back = Seq::new(row.len(), |c: int| r.product(l.per_layer_projection, through, c));
    Seq::new(
        row.len(),
        |c: int|
            (row[c] + r.normed_row(l.post_per_layer_input_norm, back)[c]) * (r.numbers)(
                l.layer_scalar,
                0,
            ),
    )
}

/// The residual stream behind a layer: what came in, and in turn what attention, the
/// feed-forward network and the layer's own input add.
pub open spec fn behind<A>(
    r: Reading<A>,
    l: Gemma4Layer<A>,
    li: usize,
    p: Pass,
    own: Seq<Seq<Seq<real>>>,
    f: Flow,
) -> Flow {
    let kv = used(r, l, li, p, taken(r, l, f.rows), f.kvs);
    let mid = with_attention(r, l, p, f.rows, kv);
    Flow {
        rows: Seq::new(
            f.rows.len(),
            |i: int| with_own_input(r, l, own[i][li as int], with_network(r, l, mid[i])),
        ),
        kvs: f.kvs.push(kv),
    }
}

/// The inputs that the layers have for themselves, as read from the steps: for each
/// token and each layer a row.
pub open spec fn read_inputs<A>(r: Reading<A>, inputs: Term<A>, p: Pass) -> Seq<Seq<Seq<real>>> {
    let v = r.value(inputs);
    Seq::new(
        p.span.seq_len as nat,
        |i: int|
            Seq::new(
                p.layers as nat,
                |li: int| Seq::new(p.width as nat, |w: int| v(0, i, li, w)),
            ),
    )
}

proof fn lemma_merged_rows<A>(
    r: Reading<A>,
    x: Term<A>,
    attn: Term<A>,
    inputs: Term<A>,
    l: Gemma4Layer<A>,
    li: usize,
    p: Pass,
    hidden: int,
    i: int,
)
    requires
        readable(r, p, hidden),
        layer_shaped(l, r.shaping, p, hidden),
        0 <= r.shaping.rows(l.gate_proj),
        li < p.layers,
        r.shaping.shape(x) == Some(seq![p.span.seq_len as int, hidden]),
        r.shaping.shape(attn) == Some(seq![p.span.seq_len as int, hidden]),
        r.shaping.shape(inputs) == Some(
            seq![p.span.seq_len as int, p.layers as int, p.width as int],
        ),
        0 <= i < p.span.seq_len,
    ensures
        ({
            let a = r.row(attn, i);
            let row = r.row(x, i);
            let mid = Seq::new(
                hidden as nat,
                |c: int| row[c] + r.normed_row(l.post_attn_norm, a)[c],
            );
            r.row(merged(x, attn, inputs, l, li), i) == with_own_input(
                r,
                l,
                read_inputs(r, inputs, p)[i][li as int],
                with_network(r, l, mid),
            )
        }),
{
    let s = r.shaping;
    let n = p.span.seq_len as int;
    let wide = Some(seq![n, hidden]);
    let inner = s.rows(l.gate_proj);
    let row = r.row(x, i);
    // Attention.
    let a = attn.norm(l.post_attn_norm);
    lemma_normed(r, attn, l.post_attn_norm, n, hidden);
    let x1 = x.plus(a);
    assert(s.shape(x1) == wide);
    let mid = Seq::new(
        hidden as nat,
        |c: int| row[c] + r.normed_row(l.post_attn_norm, r.row(attn, i))[c],
    );
    assert forall|c: int| 0 <= c < hidden implies (#[trigger] r.row(x1, i)[c]) == mid[c] by {
        assert(r.row(a, i)[c] == r.value(a)(0, 0, i, c));
        assert(r.value(x1)(0, 0, i, c) == r.value(x)(0, 0, i, c) + r.value(a)(0, 0, i, c));
    }
    assert(r.row(x1, i) =~= mid);
    // The feed-forward network.
    let h = x1.norm(l.pre_ffn_norm);
    lemma_normed(r, x1, l.pre_ffn_norm, n, hidden);
    blocks::lemma_gated(
        s,
        h,
        Activation::Gelu,
        l.gate_proj,
        l.up_proj,
        l.down_proj,
        n,
        hidden,
        inner,
    );
    let m0 = gated(h, Activation::Gelu, l.gate_proj, l.up_proj, l.down_proj);
    let fed = Seq::new(
        hidden as nat,
        |c: int|
            r.fed_forward(
                Activation::Gelu,
                l.gate_proj,
                l.up_proj,
                l.down_proj,
                inner,
                r.normed_row(l.pre_ffn_norm, mid),
                c,
            ),
    );
    assert forall|c: int| 0 <= c < hidden implies (#[trigger] r.row(m0, i)[c]) == fed[c] by {
        law_feed_forward(
            r,
            h,
            Activation::Gelu,
            l.gate_proj,
            l.up_proj,
            l.down_proj,
            n,
            hidden,
            inner,
            i,
            c,
        );
    }
    assert(r.row(m0, i) =~= fed);
    let m = m0.norm(l.post_ffn_norm);
    lemma_normed(r, m0, l.post_ffn_norm, n, hidden);
    assert(m == mlp_term(x1, l));
    let x2 = x1.plus(m);
    assert(s.shape(x2) == wide);
    let net = with_network(r, l, mid);
    assert forall|c: int| 0 <= c < hidden implies (#[trigger] r.row(x2, i)[c]) == net[c] by {
        assert(r.row(m, i)[c] == r.value(m)(0, 0, i, c));
        assert(r.row(x1, i)[c] == r.value(x1)(0, 0, i, c));
        assert(r.value(x2)(0, 0, i, c) == r.value(x1)(0, 0, i, c) + r.value(m)(0, 0, i, c));
    }
    assert(r.row(x2, i) =~= net);
    // The layer's own input.
    graph::lemma_linear(s, x2, l.per_layer_input_gate, n, p.width as int, hidden);
    let g0 = x2.linear(l.per_layer_input_gate);
    let g1 = g0.gelu();
    assert(s.shape(g1) == Some(seq![n, p.width as int]));
    let slot = inputs.slot(li as i32);
    assert(s.shape(slot) == Some(seq![n, p.width as int]));
    let g2 = g1.times(slot);
    assert(s.shape(g2) == Some(seq![n, p.width as int]));
    graph::lemma_linear(s, g2, l.per_layer_projection, n, hidden, p.width as int);
    let g3 = g2.linear(l.per_layer_projection);
    let g4 = g3.norm(l.post_per_layer_input_norm);
    lemma_normed(r, g3, l.post_per_layer_input_norm, n, hidden);
    let own = read_inputs(r, inputs, p)[i][li as int];
    let through = Seq::new(
        own.len(),
        |w: int| (r.gelu)(r.product(l.per_layer_input_gate, net, w)) * own[w],
    );
    let v2 = r.value(x2);
    assert(Seq::new(hidden as nat, |c: int| v2(0, 0, i, c)) =~= net);
    assert forall|w: int| 0 <= w < p.width implies (#[trigger] r.row(g2, i)[w]) == through[w] by {
        assert(r.value(g0)(0, 0, i, w) == r.product(l.per_layer_input_gate, net, w));
        assert(r.value(slot)(0, 0, i, w) == r.value(inputs)(0, i, li as int, w));
        assert(r.value(g2)(0, 0, i, w) == r.value(g1)(0, 0, i, w) * r.value(slot)(0, 0, i, w));
    }
    assert(r.row(g2, i) =~= through);
    let back = Seq::new(hidden as nat, |c: int| r.product(l.per_layer_projection, through, c));
    let vg = r.value(g2);
    assert(Seq::new(p.width as nat, |w: int| vg(0, 0, i, w)) =~= through);
    assert(r.row(g3, i) =~= back);
    let x3 = x2.plus(g4);
    assert(s.shape(x3) == wide);
    let out = x3.scale_by(l.layer_scalar);
    assert(s.shape(out) == wide);
    assert(out == merged(x, attn, inputs, l, li));
    let want = with_own_input(r, l, own, net);
    assert forall|c: int| 0 <= c < hidden implies (#[trigger] r.row(out, i)[c]) == want[c] by {
        assert(r.row(g4, i)[c] == r.value(g4)(0, 0, i, c));
        assert(r.row(x2, i)[c] == r.value(x2)(0, 0, i, c));
        assert(r.value(x3)(0, 0, i, c) == r.value(x2)(0, 0, i, c) + r.value(g4)(0, 0, i, c));
    }
    assert(r.row(out, i) =~= want);
}

/// Whether the layers of a model can be read.
pub open spec fn layers_readable<A>(r: Reading<A>, model: Gemma4<A>) -> bool {
    forall|i: int|
        0 <= i < model.layers@.len() ==> 0 < (#[trigger] model.layers@[i]).head_dim && 0
            <= r.shaping.rows(model.layers@[i].gate_proj)
}

/// The residual stream behind a layer is the sum of what came in, and in turn of what
/// attention, the feed-forward network and the layer's own input give; and the keys and
/// values of the layer are its own, or those of the layer that it shares with.
pub proof fn law_a_layer_adds<A>(
    r: Reading<A>,
    st: gemma_forward::Stream<A>,
    f: Flow,
    inputs: Term<A>,
    model: Gemma4<A>,
    li: usize,
    p: Pass,
    hidden: int,
    vocab: int,
)
    requires
        readable(r, p, hidden),
        model_shaped(model, r.shaping, p, hidden, vocab),
        layers_readable(r, model),
        li < model.layers@.len(),
        r.shaping.shape(inputs) == Some(
            seq![p.span.seq_len as int, p.layers as int, p.width as int],
        ),
        r.shaping.shape(st.x) == Some(seq![p.span.seq_len as int, hidden]),
        st.kvs.len() == li,
        f.kvs.len() == li,
        forall|j: int|
            0 <= j < li ==> r.shaping.shape((#[trigger] st.kvs[j]).k) == Some(
                kv_shape(model.layers@[j], p),
            ) && r.shaping.shape(st.kvs[j].v) == Some(kv_shape(model.layers@[j], p)),
        r.rows(st.x) == f.rows,
        forall|j: int|
            0 <= j < li ==> read_kv(r, #[trigger] st.kvs[j], model.layers@[j], p) == f.kvs[j],
    ensures
        ({
            let l = model.layers@[li as int];
            let out = layer_stream(st, inputs, l, li, p);
            let want = behind(r, l, li, p, read_inputs(r, inputs, p), f);
            &&& r.rows(out.x) == want.rows
            &&& forall|j: int|
                0 <= j <= li ==> read_kv(r, #[trigger] out.kvs[j], model.layers@[j], p)
                    == want.kvs[j]
        }),
{
    let s = r.shaping;
    let l = model.layers@[li as int];
    let n = p.span.seq_len as int;
    assert(shares_alike(model.layers@, li as int));
    let h = st.x.norm(l.input_norm);
    lemma_normed(r, st.x, l.input_norm, n, hidden);
    assert(r.rows(h) == taken(r, l, f.rows));
    gemma_forward::lemma_kv(s, h, model.layers@, li, st.kvs, p, hidden);
    lemma_used(r, h, model.layers@, li, st.kvs, f.kvs, p, hidden);
    let kv = kv_term(h, l, li, st.kvs, p);
    let read = read_kv(r, kv, l, p);
    gemma_forward::lemma_attention(s, h, l, kv, p, hidden);
    let attn = attention_term(h, l, kv, p);
    gemma_forward::lemma_merged(s, st.x, attn, inputs, l, li, p, hidden);
    let out = layer_stream(st, inputs, l, li, p);
    let want = behind(r, l, li, p, read_inputs(r, inputs, p), f);
    let mid = with_attention(r, l, p, f.rows, read);
    assert forall|i: int| 0 <= i < n implies (#[trigger] r.rows(out.x)[i]) == want.rows[i] by {
        assert(f.rows[i] == r.row(st.x, i));
        assert(f.rows[i].len() == hidden);
        let got = Seq::new(
            f.rows[i].len(),
            |c: int| attention_at(r, l, p, taken(r, l, f.rows), read, i, c),
        );
        assert forall|c: int| 0 <= c < hidden implies (#[trigger] r.row(attn, i)[c]) == got[c] by {
            law_attention_compares_keys_and_averages_values(r, h, l, kv, p, hidden, i, c);
        }
        assert(r.row(attn, i) =~= got);
        lemma_merged_rows(r, st.x, attn, inputs, l, li, p, hidden, i);
        let row = r.row(st.x, i);
        assert(mid[i] =~= Seq::new(
            hidden as nat,
            |c: int| row[c] + r.normed_row(l.post_attn_norm, r.row(attn, i))[c],
        ));
    }
    assert(r.rows(out.x) =~= want.rows);
    assert forall|j: int| 0 <= j <= li implies read_kv(
        r,
        #[trigger] out.kvs[j],
        model.layers@[j],
        p,
    ) == want.kvs[j] by {
        if j < li {
            assert(out.kvs[j] == st.kvs[j]);
        }
    }
}

/// The residual stream at the first layer: the rows of the embedding table that the
/// tokens name, by the root of their width.
pub open spec fn embedded<A>(
    r: Reading<A>,
    model: Gemma4<A>,
    tokens: Seq<i32>,
    hidden: int,
) -> Seq<Seq<real>> {
    Seq::new(
        tokens.len(),
        |i: int|
            Seq::new(
                hidden as nat,
                |c: int|
                    (r.matrix)(model.embed, tokens[i] as int, c) * (r.root)(
                        model.cfg.hidden_size as real,
                    ),
            ),
    )
}

/// The inputs that the layers have for themselves: for each token and each layer, the
/// row of a table that the token names, by the root of its width, and a projection of the
/// token's embedding, by one over the root of the width of that, normalised; the sum of
/// the two, by one over the root of two.
pub open spec fn own_inputs<A>(
    r: Reading<A>,
    model: Gemma4<A>,
    tokens: Seq<i32>,
    p: Pass,
    hidden: int,
) -> Seq<Seq<Seq<real>>> {
    let x = embedded(r, model, tokens, hidden);
    let width = p.width as int;
    Seq::new(
        tokens.len(),
        |i: int|
            Seq::new(
                p.layers as nat,
                |li: int|
                    {
                        let projected = Seq::new(
                            width as nat,
                            |w: int|
                                r.product(model.per_layer_model_projection, x[i], li * width + w)
                                    * (1real / (r.root)(model.cfg.hidden_size as real)),
                        );
                        Seq::new(
                            width as nat,
                            |w: int|
                                (r.normed_row(model.per_layer_projection_norm, projected)[w] + (
                                r.matrix)(
                                    model.embed_per_layer,
                                    tokens[i] as int,
                                    li * width + w,
                                ) * (r.root)(model.hidden_per_layer as real)) * (1real / (r.root)(
                                    2real,
                                )),
                        )
                    },
            ),
    )
}

/// The residual stream, and the keys and values, behind the first `k` layers.
pub open spec fn flow<A>(
    r: Reading<A>,
    model: Gemma4<A>,
    tokens: Seq<i32>,
    p: Pass,
    hidden: int,
    k: nat,
) -> Flow
    decreases k,
{
    if k == 0 {
        Flow { rows: embedded(r, model, tokens, hidden), kvs: Seq::empty() }
    } else {
        behind(
            r,
            model.layers@[k - 1],
            (k - 1) as usize,
            p,
            own_inputs(r, model, tokens, p, hidden),
            flow(r, model, tokens, p, hidden, (k - 1) as nat),
        )
    }
}

proof fn lemma_embedded<A>(
    r: Reading<A>,
    model: Gemma4<A>,
    tokens: Seq<i32>,
    p: Pass,
    hidden: int,
    vocab: int,
)
    requires
        readable(r, p, hidden),
        model_shaped(model, r.shaping, p, hidden, vocab),
        tokens.len() == p.span.seq_len,
    ensures
        ({
            let x = Term::Lookup(model.embed, Box::new(Term::Tokens(tokens))).scale(
                Factor::Sqrt(model.cfg.hidden_size),
            );
            &&& r.shaping.shape(x) == Some(seq![p.span.seq_len as int, hidden])
            &&& r.rows(x) == embedded(r, model, tokens, hidden)
        }),
{
    let t = Term::Tokens(tokens);
    let n = p.span.seq_len as int;
    assert(r.shaping.shape(t) == Some(seq![n]));
    let x0 = Term::Lookup(model.embed, Box::new(t));
    assert(r.shaping.shape(x0) == Some(seq![n, hidden]));
    let x = x0.scale(Factor::Sqrt(model.cfg.hidden_size));
    assert(r.shaping.shape(x) == Some(seq![n, hidden]));
    let want = embedded(r, model, tokens, hidden);
    assert forall|i: int| 0 <= i < n implies (#[trigger] r.rows(x)[i]) == want[i] by {
        assert forall|c: int| 0 <= c < hidden implies (#[trigger] r.rows(x)[i][c])
            == want[i][c] by {
            assert(r.ids(t)[i] == tokens[i]);
            assert(r.value(x0)(0, 0, i, c) == (r.matrix)(model.embed, tokens[i] as int, c));
        }
        assert(r.rows(x)[i] =~= want[i]);
    }
    assert(r.rows(x) =~= want);
}

proof fn lemma_own_inputs<A>(
    r: Reading<A>,
    model: Gemma4<A>,
    tokens: Seq<i32>,
    p: Pass,
    hidden: int,
    vocab: int,
)
    requires
        readable(r, p, hidden),
        model_shaped(model, r.shaping, p, hidden, vocab),
        tokens.len() == p.span.seq_len,
    ensures
        ({
            let t = Term::Tokens(tokens);
            let x = Term::Lookup(model.embed, Box::new(t)).scale(
                Factor::Sqrt(model.cfg.hidden_size),
            );
            read_inputs(r, inputs_term(model, t, x, p), p) == own_inputs(
                r,
                model,
                tokens,
                p,
                hidden,
            )
        }),
{
    let s = r.shaping;
    let n = p.span.seq_len as int;
    let width = p.width as int;
    let t = Term::Tokens(tokens);
    assert(s.shape(t) == Some(seq![n]));
    let x = Term::Lookup(model.embed, Box::new(t)).scale(Factor::Sqrt(model.cfg.hidden_size));
    lemma_embedded(r, model, tokens, p, hidden, vocab);
    let flat = Some(seq![n, p.layers * p.width]);
    let shape = seq![p.span.seq_len, p.layers, p.width];
    let a0 = Term::Lookup(model.embed_per_layer, Box::new(t));
    assert(s.shape(a0) == flat);
    let a = a0.scale(Factor::Sqrt(model.hidden_per_layer));
    assert(s.shape(a) == flat);
    graph::lemma_reshape_to_heads(s, a, p.span.seq_len, p.layers, p.width);
    let a1 = a.reshape(shape);
    graph::lemma_linear(s, x, model.per_layer_model_projection, n, p.layers * p.width, hidden);
    let b0 = x.linear(model.per_layer_model_projection);
    let b = b0.scale(Factor::MinusHalfPower(model.cfg.hidden_size));
    assert(s.shape(b) == flat);
    graph::lemma_reshape_to_heads(s, b, p.span.seq_len, p.layers, p.width);
    let b1 = b.reshape(shape);
    let c = b1.norm(model.per_layer_projection_norm);
    assert(s.shape(c) == s.shape(b1));
    let d = c.plus(a1);
    assert(s.shape(d) == s.shape(c));
    let out = d.scale(Factor::MinusHalfPower(2));
    assert(out == inputs_term(model, t, x, p));
    let got = read_inputs(r, out, p);
    let want = own_inputs(r, model, tokens, p, hidden);
    let rows = embedded(r, model, tokens, hidden);
    assert forall|i: int| 0 <= i < n implies (#[trigger] got[i]) == want[i] by {
        let row = r.row(x, i);
        assert(r.rows(x)[i] == row);
        assert(rows[i] == row);
        let vx = r.value(x);
        assert(Seq::new(hidden as nat, |j: int| vx(0, 0, i, j)) =~= row);
        assert forall|li: int| 0 <= li < p.layers implies (#[trigger] got[i][li])
            == want[i][li] by {
            let projected = Seq::new(
                width as nat,
                |w: int|
                    r.product(model.per_layer_model_projection, rows[i], li * width + w) * (1real
                        / (r.root)(model.cfg.hidden_size as real)),
            );
            let vb = r.value(b1);
            let cut = Seq::new(width as nat, |w: int| vb(0, i, li, w));
            assert forall|w: int| 0 <= w < width implies #[trigger] cut[w] == projected[w] by {
                lemma_cut_into_heads(r, b, p.span.seq_len, p.layers, p.width, i, li, w);
                assert(r.value(b)(0, 0, i, li * width + w) == r.value(b0)(
                    0,
                    0,
                    i,
                    li * width + w,
                ) * r.factor(Factor::MinusHalfPower(model.cfg.hidden_size)));
                assert(r.value(b0)(0, 0, i, li * width + w) == r.product(
                    model.per_layer_model_projection,
                    row,
                    li * width + w,
                ));
            }
            assert(cut =~= projected);
            assert forall|w: int| 0 <= w < width implies (#[trigger] got[i][li][w])
                == want[i][li][w] by {
                assert(r.value(c)(0, i, li, w) == r.normed(
                    model.per_layer_projection_norm,
                    cut,
                    w,
                ));
                lemma_cut_into_heads(r, a, p.span.seq_len, p.layers, p.width, i, li, w);
                assert(r.ids(t)[i] == tokens[i]);
                assert(r.value(a0)(0, 0, i, li * width + w) == (r.matrix)(
                    model.embed_per_layer,
                    tokens[i] as int,
                    li * width + w,
                ));
                assert(r.value(a)(0, 0, i, li * width + w) == r.value(a0)(
                    0,
                    0,
                    i,
                    li * width + w,
                ) * r.factor(Factor::Sqrt(model.hidden_per_layer)));
                assert(r.value(d)(0, i, li, w) == r.value(c)(0, i, li, w) + r.value(a1)(
                    0,
                    i,
                    li,
                    w,
                ));
                assert(r.value(out)(0, i, li, w) == r.value(d)(0, i, li, w) * r.factor(
                    Factor::MinusHalfPower(2),
                ));
            }
            assert(got[i][li] =~= want[i][li]);
        }
        assert(got[i] =~= want[i]);
    }
    assert(got =~= want);
}

proof fn lemma_flow<A>(
    r: Reading<A>,
    model: Gemma4<A>,
    tokens: Seq<i32>,
    p: Pass,
    hidden: int,
    vocab: int,
    k: nat,
)
    requires
        readable(r, p, hidden),
        model_shaped(model, r.shaping, p, hidden, vocab),
        layers_readable(r, model),
        tokens.len() == p.span.seq_len,
        k <= model.layers@.len(),
    ensures
        ({
            let t = Term::Tokens(tokens);
            let x = Term::Lookup(model.embed, Box::new(t)).scale(
                Factor::Sqrt(model.cfg.hidden_size),
            );
            let out = layers_stream(x, inputs_term(model, t, x, p), model.layers@, p, k);
            let want = flow(r, model, tokens, p, hidden, k);
            &&& r.rows(out.x) == want.rows
            &&& want.kvs.len() == k
            &&& forall|j: int|
                0 <= j < k ==> read_kv(r, #[trigger] out.kvs[j], model.layers@[j], p)
                    == want.kvs[j]
        }),
    decreases k,
{
    let s = r.shaping;
    let t = Term::Tokens(tokens);
    assert(s.shape(t) == Some(seq![p.span.seq_len as int]));
    let x = Term::Lookup(model.embed, Box::new(t)).scale(Factor::Sqrt(model.cfg.hidden_size));
    lemma_embedded(r, model, tokens, p, hidden, vocab);
    if k > 0 {
        lemma_flow(r, model, tokens, p, hidden, vocab, (k - 1) as nat);
        lemma_own_inputs(r, model, tokens, p, hidden, vocab);
        let inputs = inputs_term(model, t, x, p);
        gemma_forward::lemma_inputs(s, model, t, x, p, hidden, vocab);
        gemma_forward::lemma_layers(s, x, inputs, model, p, hidden, vocab, (k - 1) as nat);
        let st = layers_stream(x, inputs, model.layers@, p, (k - 1) as nat);
        let f = flow(r, model, tokens, p, hidden, (k - 1) as nat);
        law_a_layer_adds(r, st, f, inputs, model, (k - 1) as usize, p, hidden, vocab);
    }
}

/// The logits after token `i`: the products of the rows of the embedding table with the
/// token's row behind the last layer, normalised, and brought below the cap where there
/// is one.
pub open spec fn logit<A>(
    r: Reading<A>,
    model: Gemma4<A>,
    tokens: Seq<i32>,
    p: Pass,
    hidden: int,
    i: int,
    c: int,
) -> real {
    let last = flow(r, model, tokens, p, hidden, model.layers@.len()).rows[i];
    let plain = r.product(model.embed, r.normed_row(model.norm, last), c);
    match model.cfg.final_logit_softcapping {
        Some(cap) => (r.number)(cap) * (r.tanh)(plain / (r.number)(cap)),
        None => plain,
    }
}

/// A pass gives the logits after every token, or after the last one only.
pub proof fn law_logits<A>(
    r: Reading<A>,
    model: Gemma4<A>,
    tokens: Seq<i32>,
    p: Pass,
    hidden: int,
    vocab: int,
    i: int,
    c: int,
)
    requires
        readable(r, p, hidden),
        model_shaped(model, r.shaping, p, hidden, vocab),
        layers_readable(r, model),
        tokens.len() == p.span.seq_len,
        0 <= i < p.span.seq_len,
    ensures
        r.value(forward_term(model, tokens, p, (p.span.seq_len - 1) as i32, true))(0, 0, i, c)
            == logit(r, model, tokens, p, hidden, i, c),
        r.value(forward_term(model, tokens, p, i as i32, false))(0, 0, 0, c) == logit(
            r,
            model,
            tokens,
            p,
            hidden,
            i,
            c,
        ),
{
    let s = r.shaping;
    let n = p.span.seq_len as int;
    let t = Term::Tokens(tokens);
    assert(s.shape(t) == Some(seq![n]));
    let x = Term::Lookup(model.embed, Box::new(t)).scale(Factor::Sqrt(model.cfg.hidden_size));
    lemma_embedded(r, model, tokens, p, hidden, vocab);
    let inputs = inputs_term(model, t, x, p);
    gemma_forward::lemma_inputs(s, model, t, x, p, hidden, vocab);
    let k = model.layers@.len();
    gemma_forward::lemma_layers(s, x, inputs, model, p, hidden, vocab, k);
    lemma_flow(r, model, tokens, p, hidden, vocab, k);
    let y = layers_stream(x, inputs, model.layers@, p, k).x;
    lemma_normed(r, y, model.norm, n, hidden);
    let z = hidden_term(model, tokens, p);
    assert(z == y.norm(model.norm));
    let last = r.normed_row(model.norm, r.row(y, i));
    assert(r.rows(y)[i] == r.row(y, i));
    let vz = r.value(z);
    assert(Seq::new(hidden as nat, |j: int| vz(0, 0, i, j)) =~= r.row(z, i));
    let l = z.linear(model.embed);
    assert(r.value(l)(0, 0, i, c) == r.product(model.embed, last, c));
    let r0 = z.row(i as i32);
    assert(s.shape(r0) == Some(seq![hidden]));
    let b = r0.batch();
    assert(seq![1int] + seq![hidden] =~= seq![1int, hidden]);
    assert(s.shape(b) == Some(seq![1int, hidden]));
    let vb = r.value(b);
    assert forall|j: int| 0 <= j < hidden implies (#[trigger] vb(0, 0, 0, j)) == vz(0, 0, i, j) by {
        assert(r.value(r0)(0, 0, 0, j) == vz(0, 0, i, j));
    }
    assert(Seq::new(hidden as nat, |j: int| vb(0, 0, 0, j)) =~= r.row(z, i));
    let lb = b.linear(model.embed);
    assert(r.value(lb)(0, 0, 0, c) == r.product(model.embed, last, c));
    let one = head_term(model, b);
    assert(r.value(one)(0, 0, 0, c) == logit(r, model, tokens, p, hidden, i, c));
    assert(r.value(one.row(0))(0, 0, 0, c) == r.value(one)(0, 0, 0, c));
}

/// A planned pass gives the logits that the configuration of the model calls for. A
/// token's position is the number of tokens before it, the cached ones counted; under
/// full attention it sees itself and those before it, and no other; under sliding
/// attention only the last `sliding_window` of these.
pub proof fn law_planned_pass<A>(
    r: Reading<A>,
    model: Gemma4<A>,
    plan: ForwardPlan,
    tokens: Seq<u32>,
    offset: int,
    hidden: int,
    vocab: int,
    i: int,
    c: int,
)
    requires
        plan.is_plan(model, tokens, offset),
        0 < model.cfg.num_attention_heads <= i32::MAX,
        readable(r, pass_of(model, plan), hidden),
        model_shaped(model, r.shaping, pass_of(model, plan), hidden, vocab),
        layers_readable(r, model),
        forall|q: int, k: int| (#[trigger] (r.sees)(MaskKind::Absent, q, k)),
        plan.full_mask matches Some(rows) ==> forall|q: int, k: int|
            0 <= q < tokens.len() && 0 <= k < offset + tokens.len() ==> (#[trigger] (r.sees)(
                MaskKind::Causal,
                q,
                k,
            )) == rows@[q]@[k],
        plan.sliding_mask matches Some(rows) ==> forall|q: int, k: int|
            0 <= q < tokens.len() && 0 <= k < offset + tokens.len() ==> (#[trigger] (r.sees)(
                MaskKind::Sliding,
                q,
                k,
            )) == rows@[q]@[k],
        0 <= i < tokens.len(),
    ensures
        ({
            let p = pass_of(model, plan);
            let ids = tokens.map_values(|t: u32| t as i32);
            let want = logit(r, model, ids, p, hidden, i, c);
            let n = (offset + tokens.len()) as nat;
            &&& p.span.offset == offset
            &&& p.span.new_end == n
            &&& p.n_heads == model.cfg.num_attention_heads
            &&& r.seen(p.full_mask, i, n as int) == Seq::new(n, |j: int| j <= offset + i)
            &&& r.seen(p.sliding_mask, i, n as int) == Seq::new(
                n,
                |j: int| offset + i - model.sliding_window < j <= offset + i,
            )
            &&& r.value(forward_term(model, plan.token_ids@, p, plan.last_row, true))(
                0,
                0,
                i,
                c,
            ) == want
            &&& i == tokens.len() - 1 ==> r.value(
                forward_term(model, plan.token_ids@, p, plan.last_row, false),
            )(0, 0, 0, c) == want
        }),
{
    let p = pass_of(model, plan);
    let ids = tokens.map_values(|t: u32| t as i32);
    let n = (offset + tokens.len()) as nat;
    law_logits(r, model, ids, p, hidden, vocab, i, c);
    assert(r.seen(p.full_mask, i, n as int) =~= Seq::new(n, |j: int| j <= offset + i));
    assert(r.seen(p.sliding_mask, i, n as int) =~= Seq::new(
        n,
        |j: int| offset + i - model.sliding_window < j <= offset + i,
    ));
}

/// The keys that a layer's queries are compared with, and the values that are averaged, at
/// any later point of the pass: those that its own `k_proj` and `v_proj` give of the rows
/// that came into it, behind what its buffer held; or, where it shares, those of the layer
/// that it shares with.
pub proof fn law_whose_keys_and_values_are_used<A>(
    r: Reading<A>,
    model: Gemma4<A>,
    tokens: Seq<i32>,
    p: Pass,
    hidden: int,
    k: nat,
    j: int,
    g: int,
    at: int,
)
    requires
        0 <= j < k <= model.layers@.len(),
        shares_alike(model.layers@, j),
        model.layers@.len() <= usize::MAX,
    ensures
        ({
            let l = model.layers@[j];
            let kvs = flow(r, model, tokens, p, hidden, k).kvs;
            let h = taken(r, l, flow(r, model, tokens, p, hidden, j as nat).rows);
            let i = at - p.span.offset;
            let dim = l.head_dim as int;
            &&& kvs.len() == k
            &&& l.has_kv && 0 <= g < l.kv_heads && 0 <= at < p.span.offset && at < p.span.new_end
                ==> kvs[j].k[g][at] == r.held_head(j as usize, Part::Keys, g, at, dim)
                && kvs[j].v[g][at] == r.held_head(j as usize, Part::Values, g, at, dim)
            &&& l.has_kv && 0 <= g < l.kv_heads && 0 <= at && p.span.offset <= at < p.span.new_end
                ==> kvs[j].k[g][at] == r.turned_head(
                l.k_proj->0,
                l.k_norm->0,
                frequencies(l.layer_type),
                h[i],
                dim,
                g,
                at,
            ) && kvs[j].v[g][at] == Seq::new(
                dim as nat,
                |d: int| r.level(r.headed(l.v_proj->0, h[i], dim, g), l.v_norm_eps, d),
            )
            &&& !l.has_kv ==> kvs[j] == kvs[l.previous_kv as int]
        }),
{
    lemma_kvs_stay(r, model, tokens, p, hidden, k, (j + 1) as nat);
    let l = model.layers@[j];
    let before = flow(r, model, tokens, p, hidden, j as nat);
    let after = flow(r, model, tokens, p, hidden, (j + 1) as nat);
    lemma_kvs_stay(r, model, tokens, p, hidden, (j + 1) as nat, j as nat);
    let kv = used(r, l, j as usize, p, taken(r, l, before.rows), before.kvs);
    assert(after.kvs == before.kvs.push(kv));
    let kvs = flow(r, model, tokens, p, hidden, k).kvs;
    assert(kvs[j] == kvs.take(j + 1)[j]);
    if !l.has_kv {
        let d = l.previous_kv as int;
        assert(kvs[d] == kvs.take(j + 1)[d]);
        assert(after.kvs[d] == before.kvs[d]);
    }
}

proof fn lemma_kvs_stay<A>(
    r: Reading<A>,
    model: Gemma4<A>,
    tokens: Seq<i32>,
    p: Pass,
    hidden: int,
    k: nat,
    j: nat,
)
    requires
        j <= k <= model.layers@.len(),
    ensures
        flow(r, model, tokens, p, hidden, k).kvs.len() == k,
        flow(r, model, tokens, p, hidden, k).kvs.take(j as int) == flow(
            r,
            model,
            tokens,
            p,
            hidden,
            j,
        ).kvs,
    decreases k,
{
    if k == 0 {
        assert(flow(r, model, tokens, p, hidden, 0).kvs.take(0) =~= Seq::<Kv>::empty());
    } else {
        let before = flow(r, model, tokens, p, hidden, (k - 1) as nat).kvs;
        let after = flow(r, model, tokens, p, hidden, k).kvs;
        if j < k {
            lemma_kvs_stay(r, model, tokens, p, hidden, (k - 1) as nat, j);
            assert(after.take(j as int) =~= before.take(j as int));
        } else {
            lemma_kvs_stay(r, model, tokens, p, hidden, (k - 1) as nat, (k - 1) as nat);
            assert(after.take(j as int) =~= after);
        }
    }
}

} // verus!
