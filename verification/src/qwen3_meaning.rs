//! What a forward pass of Qwen3 computes, in real numbers.

use vstd::prelude::*;

use crate::attention;
use crate::blocks::{turned, Activation};
use crate::cache::Span;
use crate::config::ModelConfig;
use crate::graph;
use crate::graph::{Factor, MaskKind, Part, RopeBase, Term};
use crate::meaning::{law_attention, law_feed_forward, law_heads_are_turned, Reading};
use crate::qwen3::{ForwardPlan, Qwen3, Qwen3Layer};
use crate::qwen3_forward;
use crate::qwen3_forward::{
    attention_term, forward_term, keys_seen, kept, layer_shaped, layer_term, layers_term,
    logits_term, mlp_term, model_shaped, pass_consistent, pass_of, turn, Pass,
};

verus! {

/// Row `i` of the residual stream as attention takes it.
pub open spec fn taken<A>(r: Reading<A>, l: Qwen3Layer<A>, x: Seq<Seq<real>>, i: int) -> Seq<real> {
    r.normed_row(l.input_norm, x[i])
}

/// The key at position `j` of key/value head `g`: what the layer's buffer held, or the
/// projection of a new token by `k_proj`, normalised and turned for its position.
pub open spec fn key<A>(
    r: Reading<A>,
    l: Qwen3Layer<A>,
    layer: usize,
    p: Pass,
    x: Seq<Seq<real>>,
    g: int,
    j: int,
) -> Seq<real> {
    let dim = p.head_dim as int;
    match p.keep {
        Some(span) if j < span.offset => r.held_head(layer, Part::Keys, g, j, dim),
        _ => {
            let i = match p.keep {
                Some(span) => j - span.offset,
                None => j,
            };
            r.turned_head(
                l.k_proj,
                l.k_norm,
                RopeBase::Config,
                taken(r, l, x, i),
                dim,
                g,
                p.offset + i,
            )
        },
    }
}

/// The value at position `j` of key/value head `g`: what the layer's buffer held, or the
/// projection of a new token by `v_proj`.
pub open spec fn value<A>(
    r: Reading<A>,
    l: Qwen3Layer<A>,
    layer: usize,
    p: Pass,
    x: Seq<Seq<real>>,
    g: int,
    j: int,
) -> Seq<real> {
    let dim = p.head_dim as int;
    match p.keep {
        Some(span) if j < span.offset => r.held_head(layer, Part::Values, g, j, dim),
        _ => {
            let i = match p.keep {
                Some(span) => j - span.offset,
                None => j,
            };
            r.headed(l.v_proj, taken(r, l, x, i), dim, g)
        },
    }
}

/// What attention gives for token `i`. The queries are the projections of the token by
/// `q_proj`, normalised and turned; `repeats` of them in a row share a key/value head;
/// and scores are divided by the root of the width of a head.
pub open spec fn attention_at<A>(
    r: Reading<A>,
    l: Qwen3Layer<A>,
    layer: usize,
    p: Pass,
    x: Seq<Seq<real>>,
    i: int,
    c: int,
) -> real {
    let dim = p.head_dim as int;
    let per = p.repeats as int;
    let n = keys_seen(p) as nat;
    r.attention(
        Seq::new(
            p.n_heads as nat,
            |h: int|
                r.turned_head(
                    l.q_proj,
                    l.q_norm,
                    RopeBase::Config,
                    taken(r, l, x, i),
                    dim,
                    h,
                    p.offset + i,
                ),
        ),
        Seq::new(
            p.n_heads as nat,
            |h: int| Seq::new(n, |j: int| key(r, l, layer, p, x, h / per, j)),
        ),
        Seq::new(
            p.n_heads as nat,
            |h: int| Seq::new(n, |j: int| value(r, l, layer, p, x, h / per, j)),
        ),
        1real / (r.root)(dim as real),
        r.seen(p.mask, i, n as int),
        dim,
        l.o_proj,
        c,
    )
}

/// The residual stream with what attention gives added to it.
pub open spec fn with_attention<A>(
    r: Reading<A>,
    l: Qwen3Layer<A>,
    layer: usize,
    p: Pass,
    x: Seq<Seq<real>>,
) -> Seq<Seq<real>> {
    Seq::new(
        x.len(),
        |i: int|
            Seq::new(x[i].len(), |c: int| x[i][c] + attention_at(r, l, layer, p, x, i, c)),
    )
}

/// What the feed-forward network of a layer gives for a row of the residual stream.
pub open spec fn fed<A>(
    r: Reading<A>,
    l: Qwen3Layer<A>,
    inner: int,
    row: Seq<real>,
    c: int,
) -> real {
    r.fed_forward(
        Activation::Silu,
        l.gate_proj,
        l.up_proj,
        l.down_proj,
        inner,
        r.normed_row(l.post_attn_norm, row),
        c,
    )
}

/// The residual stream behind a layer: what came in, what attention gives, and what the
/// feed-forward network gives of the two.
pub open spec fn behind<A>(
    r: Reading<A>,
    l: Qwen3Layer<A>,
    layer: usize,
    p: Pass,
    inner: int,
    x: Seq<Seq<real>>,
) -> Seq<Seq<real>> {
    let mid = with_attention(r, l, layer, p, x);
    Seq::new(
        x.len(),
        |i: int|
            Seq::new(
                x[i].len(),
                |c: int|
                    x[i][c] + attention_at(r, l, layer, p, x, i, c) + fed(r, l, inner, mid[i], c),
            ),
    )
}

/// Whether a pass over a model can be read: the weights have the right shapes, and
/// nothing is empty.
pub open spec fn readable<A>(r: Reading<A>, p: Pass, hidden: int, inner: int) -> bool {
    &&& r.sound()
    &&& pass_consistent(p)
    &&& r.shaping.mask == seq![p.seq_len as int, keys_seen(p)]
    &&& 0 < p.head_dim
    &&& 0 < p.repeats
    &&& 0 <= p.seq_len
    &&& 0 <= hidden
    &&& 0 <= inner
    &&& p.keep matches Some(span) ==> 0 <= span.offset && span.new_end == span.offset
        + span.seq_len
}

proof fn lemma_normed<A>(
    r: Reading<A>,
    x: Term<A>,
    norm: crate::weights::RmsNorm<A>,
    n: int,
    hidden: int,
    i: int,
)
    requires
        r.shaping.shape(x) == Some(seq![n, hidden]),
        r.shaping.is_norm(norm, hidden),
        0 <= hidden,
        0 <= i < n,
    ensures
        r.row(x.norm(norm), i) == r.normed_row(norm, r.rows(x)[i]),
        r.rows(x)[i] == r.row(x, i),
{
    assert(r.row(x.norm(norm), i) =~= r.normed_row(norm, r.row(x, i)));
}

proof fn lemma_seen_keys<A>(
    r: Reading<A>,
    x: Term<A>,
    l: Qwen3Layer<A>,
    layer: usize,
    p: Pass,
    hidden: int,
    inner: int,
    h: int,
    j: int,
)
    requires
        readable(r, p, hidden, inner),
        layer_shaped(l, r.shaping, p, hidden, inner),
        r.shaping.shape(x) == Some(seq![p.seq_len as int, hidden]),
        0 <= h < p.n_heads,
        0 <= j < keys_seen(p),
    ensures
        ({
            let t = turned(
                x.norm(l.input_norm),
                l.k_proj,
                l.k_norm,
                turn(p.kv_heads, p),
            );
            r.at_head(
                kept(t, layer, Part::Keys, p).repeat(p.repeats),
                h,
                j,
                p.head_dim as int,
            ) == key(r, l, layer, p, r.rows(x), h / (p.repeats as int), j)
        }),
{
    let n = x.norm(l.input_norm);
    assert(r.shaping.shape(n) == Some(seq![p.seq_len as int, hidden]));
    let t = turned(n, l.k_proj, l.k_norm, turn(p.kv_heads, p));
    let u = kept(t, layer, Part::Keys, p);
    let g = h / (p.repeats as int);
    assert(0 <= g < p.kv_heads) by (nonlinear_arith)
        requires
            g == h / (p.repeats as int),
            0 <= h < p.n_heads,
            p.n_heads == p.kv_heads * p.repeats,
            0 < p.repeats,
    ;
    let i = match p.keep {
        Some(span) => j - span.offset,
        None => j,
    };
    assert(r.at_head(u.repeat(p.repeats), h, j, p.head_dim as int) =~= r.at_head(
        u,
        g,
        j,
        p.head_dim as int,
    ));
    if 0 <= i {
        law_heads_are_turned(r, n, l.k_proj, l.k_norm, turn(p.kv_heads, p), hidden, i, g);
        lemma_normed(r, x, l.input_norm, p.seq_len as int, hidden, i);
    }
    let got = r.at_head(u, g, j, p.head_dim as int);
    let want = key(r, l, layer, p, r.rows(x), g, j);
    if 0 <= i {
        assert(turn(p.kv_heads, p).dim == p.head_dim);
        assert forall|d: int| 0 <= d < p.head_dim implies #[trigger] got[d] == want[d] by {
            assert(r.value(u)(0, g, j, d) == r.value(t)(0, g, i, d));
        }
    }
    assert(got =~= want);
}

proof fn lemma_seen_values<A>(
    r: Reading<A>,
    x: Term<A>,
    l: Qwen3Layer<A>,
    layer: usize,
    p: Pass,
    hidden: int,
    inner: int,
    h: int,
    j: int,
)
    requires
        readable(r, p, hidden, inner),
        layer_shaped(l, r.shaping, p, hidden, inner),
        r.shaping.shape(x) == Some(seq![p.seq_len as int, hidden]),
        0 <= h < p.n_heads,
        0 <= j < keys_seen(p),
    ensures
        ({
            let t = x.norm(l.input_norm).linear(l.v_proj).reshape(
                seq![p.seq_len, p.kv_heads, p.head_dim],
            ).swap_first();
            r.at_head(
                kept(t, layer, Part::Values, p).repeat(p.repeats),
                h,
                j,
                p.head_dim as int,
            ) == value(r, l, layer, p, r.rows(x), h / (p.repeats as int), j)
        }),
{
    let n = x.norm(l.input_norm);
    assert(r.shaping.shape(n) == Some(seq![p.seq_len as int, hidden]));
    let t = n.linear(l.v_proj).reshape(seq![p.seq_len, p.kv_heads, p.head_dim]).swap_first();
    let u = kept(t, layer, Part::Values, p);
    let g = h / (p.repeats as int);
    assert(0 <= g < p.kv_heads) by (nonlinear_arith)
        requires
            g == h / (p.repeats as int),
            0 <= h < p.n_heads,
            p.n_heads == p.kv_heads * p.repeats,
            0 < p.repeats,
    ;
    let i = match p.keep {
        Some(span) => j - span.offset,
        None => j,
    };
    assert(r.at_head(u.repeat(p.repeats), h, j, p.head_dim as int) =~= r.at_head(
        u,
        g,
        j,
        p.head_dim as int,
    ));
    if 0 <= i {
        crate::meaning::law_heads_are_projected(
            r,
            n,
            l.v_proj,
            p.seq_len,
            p.kv_heads,
            p.head_dim,
            hidden,
            i,
            g,
        );
        lemma_normed(r, x, l.input_norm, p.seq_len as int, hidden, i);
    }
    assert(r.at_head(u, g, j, p.head_dim as int) =~= value(r, l, layer, p, r.rows(x), g, j));
}

/// Attention compares the queries of `q_proj` with the keys of `k_proj`, and averages
/// the values of `v_proj`.
pub proof fn law_attention_compares_keys_and_averages_values<A>(
    r: Reading<A>,
    x: Term<A>,
    l: Qwen3Layer<A>,
    layer: usize,
    p: Pass,
    hidden: int,
    inner: int,
    i: int,
    c: int,
)
    requires
        readable(r, p, hidden, inner),
        layer_shaped(l, r.shaping, p, hidden, inner),
        r.shaping.shape(x) == Some(seq![p.seq_len as int, hidden]),
        0 <= i < p.seq_len,
    ensures
        r.value(attention_term(x, l, layer, p))(0, 0, i, c) == attention_at(
            r,
            l,
            layer,
            p,
            r.rows(x),
            i,
            c,
        ),
{
    let s = r.shaping;
    let h = x.norm(l.input_norm);
    let dim = p.head_dim as int;
    let n = p.seq_len as int;
    let keys = keys_seen(p);
    assert(s.shape(h) == Some(seq![n, hidden]));
    let q = turned(h, l.q_proj, l.q_norm, turn(p.n_heads, p));
    let k0 = turned(h, l.k_proj, l.k_norm, turn(p.kv_heads, p));
    let v0 = h.linear(l.v_proj).reshape(seq![p.seq_len, p.kv_heads, p.head_dim]).swap_first();
    let k = kept(k0, layer, Part::Keys, p).repeat(p.repeats);
    let v = kept(v0, layer, Part::Values, p).repeat(p.repeats);
    crate::blocks::lemma_turned(s, h, l.q_proj, l.q_norm, turn(p.n_heads, p), hidden);
    crate::blocks::lemma_turned(s, h, l.k_proj, l.k_norm, turn(p.kv_heads, p), hidden);
    graph::lemma_linear(s, h, l.v_proj, n, p.kv_heads * p.head_dim, hidden);
    graph::lemma_reshape_to_heads(s, h.linear(l.v_proj), p.seq_len, p.kv_heads, p.head_dim);
    assert(s.shape(v0) == Some(seq![p.kv_heads as int, n, dim]));
    lemma_repeated(s, k0, layer, Part::Keys, p);
    lemma_repeated(s, v0, layer, Part::Values, p);
    let heads = p.n_heads as int;
    assert(heads / heads == 1 && heads % heads == 0) by (nonlinear_arith)
        requires
            0 < heads,
    ;
    law_attention(
        r,
        q,
        k,
        v,
        Factor::InverseSqrt(p.head_dim as usize),
        p.mask,
        p.seq_len,
        p.n_heads,
        heads,
        keys,
        p.head_dim,
        p.q_dim,
        l.o_proj,
        hidden,
        i,
        c,
    );
    let rows = r.rows(x);
    let per = p.repeats as int;
    let qs = Seq::new(
        p.n_heads as nat,
        |h: int|
            r.turned_head(
                l.q_proj,
                l.q_norm,
                RopeBase::Config,
                taken(r, l, rows, i),
                dim,
                h,
                p.offset + i,
            ),
    );
    let ks = Seq::new(
        p.n_heads as nat,
        |h: int| Seq::new(keys as nat, |j: int| key(r, l, layer, p, rows, h / per, j)),
    );
    let vs = Seq::new(
        p.n_heads as nat,
        |h: int| Seq::new(keys as nat, |j: int| value(r, l, layer, p, rows, h / per, j)),
    );
    let qs1 = Seq::new(p.n_heads as nat, |h: int| r.at_head(q, h, i, dim));
    let ks1 = Seq::new(
        p.n_heads as nat,
        |h: int| Seq::new(keys as nat, |j: int| r.at_head(k, h / (heads / heads), j, dim)),
    );
    let vs1 = Seq::new(
        p.n_heads as nat,
        |h: int| Seq::new(keys as nat, |j: int| r.at_head(v, h / (heads / heads), j, dim)),
    );
    assert forall|a: int| 0 <= a < p.n_heads implies #[trigger] qs1[a] == qs[a] by {
        law_heads_are_turned(r, h, l.q_proj, l.q_norm, turn(p.n_heads, p), hidden, i, a);
        lemma_normed(r, x, l.input_norm, n, hidden, i);
        assert(qs1[a] =~= qs[a]);
    }
    assert(qs1 =~= qs);
    assert forall|a: int| 0 <= a < p.n_heads implies #[trigger] ks1[a] == ks[a] by {
        assert forall|j: int| 0 <= j < keys implies #[trigger] ks1[a][j] == ks[a][j] by {
            lemma_seen_keys(r, x, l, layer, p, hidden, inner, a, j);
        }
        assert(ks1[a] =~= ks[a]);
    }
    assert(ks1 =~= ks);
    assert forall|a: int| 0 <= a < p.n_heads implies #[trigger] vs1[a] == vs[a] by {
        assert forall|j: int| 0 <= j < keys implies #[trigger] vs1[a][j] == vs[a][j] by {
            lemma_seen_values(r, x, l, layer, p, hidden, inner, a, j);
        }
        assert(vs1[a] =~= vs[a]);
    }
    assert(vs1 =~= vs);
}

proof fn lemma_repeated<A>(
    s: graph::Shaping<A>,
    x: Term<A>,
    layer: usize,
    part: Part,
    p: Pass,
)
    requires
        pass_consistent(p),
        s.shape(x) == Some(seq![p.kv_heads as int, p.seq_len as int, p.head_dim as int]),
    ensures
        s.shape(kept(x, layer, part, p).repeat(p.repeats)) == Some(
            seq![p.n_heads as int, keys_seen(p), p.head_dim as int],
        ),
{
    let a = kept(x, layer, part, p);
    assert(s.shape(a) == Some(seq![p.kv_heads as int, keys_seen(p), p.head_dim as int]));
    assert(seq![p.kv_heads as int, keys_seen(p), p.head_dim as int].update(
        0,
        p.kv_heads * p.repeats,
    ) =~= seq![p.n_heads as int, keys_seen(p), p.head_dim as int]);
}

/// The residual stream behind a layer is the sum of what came in, what attention gives
/// of it, and what the feed-forward network gives of the two.
pub proof fn law_a_layer_adds<A>(
    r: Reading<A>,
    x: Term<A>,
    l: Qwen3Layer<A>,
    layer: usize,
    p: Pass,
    hidden: int,
    inner: int,
)
    requires
        readable(r, p, hidden, inner),
        layer_shaped(l, r.shaping, p, hidden, inner),
        r.shaping.shape(x) == Some(seq![p.seq_len as int, hidden]),
    ensures
        r.shaping.shape(layer_term(x, l, layer, p)) == Some(seq![p.seq_len as int, hidden]),
        r.rows(layer_term(x, l, layer, p)) == behind(r, l, layer, p, inner, r.rows(x)),
{
    let s = r.shaping;
    let n = p.seq_len as int;
    let wide = Some(seq![n, hidden]);
    qwen3_forward::lemma_attention(s, x, l, layer, p, hidden, inner);
    let a = attention_term(x, l, layer, p);
    let y = x.plus(a);
    assert(s.shape(y) == wide);
    qwen3_forward::lemma_mlp(s, y, l, p, hidden, inner);
    let m = mlp_term(y, l);
    let z = layer_term(x, l, layer, p);
    assert(s.shape(z) == wide);
    let rows = r.rows(x);
    let mid = with_attention(r, l, layer, p, rows);
    let want = behind(r, l, layer, p, inner, rows);
    let got = r.rows(z);
    assert forall|i: int| 0 <= i < n implies #[trigger] got[i] == want[i] by {
        assert forall|c: int| 0 <= c < hidden implies r.value(a)(0, 0, i, c) == attention_at(
            r,
            l,
            layer,
            p,
            rows,
            i,
            c,
        ) by {
            law_attention_compares_keys_and_averages_values(
                r,
                x,
                l,
                layer,
                p,
                hidden,
                inner,
                i,
                c,
            );
        }
        assert(r.row(y, i) =~= mid[i]);
        lemma_normed(r, y, l.post_attn_norm, n, hidden, i);
        let h = y.norm(l.post_attn_norm);
        assert(s.shape(h) == wide);
        assert forall|c: int| 0 <= c < hidden implies #[trigger] got[i][c] == want[i][c] by {
            law_feed_forward(
                r,
                h,
                Activation::Silu,
                l.gate_proj,
                l.up_proj,
                l.down_proj,
                n,
                hidden,
                inner,
                i,
                c,
            );
            assert(r.value(m)(0, 0, i, c) == fed(r, l, inner, mid[i], c));
            assert(r.value(y)(0, 0, i, c) == rows[i][c] + attention_at(r, l, layer, p, rows, i, c));
            assert(r.value(z)(0, 0, i, c) == r.value(y)(0, 0, i, c) + r.value(m)(0, 0, i, c));
        }
        assert(got[i] =~= want[i]);
    }
    assert(got =~= want);
}

/// The residual stream behind the first `k` layers: it begins with the rows of the
/// embedding table that the tokens name.
pub open spec fn stream<A>(
    r: Reading<A>,
    model: Qwen3<A>,
    tokens: Seq<i32>,
    p: Pass,
    hidden: int,
    inner: int,
    k: nat,
) -> Seq<Seq<real>>
    decreases k,
{
    if k == 0 {
        Seq::new(
            tokens.len(),
            |i: int|
                Seq::new(hidden as nat, |c: int| (r.matrix)(model.embed, tokens[i] as int, c)),
        )
    } else {
        behind(
            r,
            model.layers@[k - 1],
            (k - 1) as usize,
            p,
            inner,
            stream(r, model, tokens, p, hidden, inner, (k - 1) as nat),
        )
    }
}

proof fn lemma_stream<A>(
    r: Reading<A>,
    model: Qwen3<A>,
    tokens: Seq<i32>,
    p: Pass,
    hidden: int,
    inner: int,
    vocab: int,
    k: nat,
)
    requires
        readable(r, p, hidden, inner),
        model_shaped(model, r.shaping, p, hidden, inner, vocab),
        tokens.len() == p.seq_len,
        k <= model.layers@.len(),
    ensures
        ({
            let x = Term::Lookup(model.embed, Box::new(Term::Tokens(tokens)));
            let y = layers_term(x, model.layers@, p, k);
            &&& r.shaping.shape(y) == Some(seq![p.seq_len as int, hidden])
            &&& r.rows(y) == stream(r, model, tokens, p, hidden, inner, k)
        }),
    decreases k,
{
    let t = Term::Tokens(tokens);
    let x = Term::Lookup(model.embed, Box::new(t));
    assert(r.shaping.shape(t) == Some(seq![p.seq_len as int]));
    assert(r.shaping.shape(x) == Some(seq![p.seq_len as int, hidden]));
    if k == 0 {
        let want = stream(r, model, tokens, p, hidden, inner, 0);
        assert forall|i: int| 0 <= i < tokens.len() implies #[trigger] r.rows(x)[i] == want[i] by {
            assert(r.rows(x)[i] =~= want[i]);
        }
        assert(r.rows(x) =~= want);
    } else {
        lemma_stream(r, model, tokens, p, hidden, inner, vocab, (k - 1) as nat);
        let y = layers_term(x, model.layers@, p, (k - 1) as nat);
        law_a_layer_adds(r, y, model.layers@[k - 1], (k - 1) as usize, p, hidden, inner);
    }
}

/// The logits after a token are the products of the rows of the head, or of the
/// embedding table where there is none, with the token's row behind the last layer,
/// normalised.
pub proof fn law_logits<A>(
    r: Reading<A>,
    model: Qwen3<A>,
    tokens: Seq<i32>,
    p: Pass,
    hidden: int,
    inner: int,
    vocab: int,
    i: int,
    c: int,
)
    requires
        readable(r, p, hidden, inner),
        model_shaped(model, r.shaping, p, hidden, inner, vocab),
        tokens.len() == p.seq_len,
        0 <= i < p.seq_len,
    ensures
        r.value(logits_term(model, tokens, p))(0, 0, i, c) == logit(
            r,
            model,
            tokens,
            p,
            hidden,
            inner,
            i,
            c,
        ),
{
    let x = Term::Lookup(model.embed, Box::new(Term::Tokens(tokens)));
    lemma_stream(r, model, tokens, p, hidden, inner, vocab, model.layers@.len());
    let y = layers_term(x, model.layers@, p, model.layers@.len());
    lemma_normed(r, y, model.norm, p.seq_len as int, hidden, i);
    let z = y.norm(model.norm);
    assert(r.shaping.shape(z) == Some(seq![p.seq_len as int, hidden]));
    let v = r.value(z);
    assert(Seq::new(hidden as nat, |j: int| v(0, 0, i, j)) =~= r.row(z, i));
}

/// The logits after token `i`.
pub open spec fn logit<A>(
    r: Reading<A>,
    model: Qwen3<A>,
    tokens: Seq<i32>,
    p: Pass,
    hidden: int,
    inner: int,
    i: int,
    c: int,
) -> real {
    let last = stream(r, model, tokens, p, hidden, inner, model.layers@.len())[i];
    let head = match model.lm_head {
        Some(head) => head,
        None => model.embed,
    };
    r.product(head, r.normed_row(model.norm, last), c)
}

/// The pass over `count` tokens behind `offset` cached ones, by the configuration of a
/// model.
pub open spec fn configured(
    cfg: ModelConfig,
    count: int,
    offset: int,
    mask: MaskKind,
    keep: Option<Span>,
) -> Pass {
    let heads = cfg.num_attention_heads as int;
    let kv_heads = match cfg.num_key_value_heads {
        Some(n) => n as int,
        None => heads,
    };
    let dim = match cfg.head_dim {
        Some(n) => n as int,
        None => cfg.hidden_size as int / heads,
    };
    Pass {
        seq_len: count as i32,
        offset: offset as i32,
        n_heads: heads as i32,
        kv_heads: kv_heads as i32,
        head_dim: dim as i32,
        q_dim: (heads * dim) as i32,
        repeats: (heads / kv_heads) as i32,
        mask,
        keep,
    }
}

/// Which mask a plan brings.
pub open spec fn masked(plan: ForwardPlan) -> MaskKind {
    match plan.mask {
        Some(_) => MaskKind::Causal,
        None => MaskKind::Absent,
    }
}

/// A planned pass gives the logits that the configuration of the model calls for, after
/// every token or after the last one only; a token sees itself and those before it, and
/// no other; and its position is the number of tokens before it, the cached ones
/// counted.
pub proof fn law_planned_pass<A>(
    r: Reading<A>,
    model: Qwen3<A>,
    plan: ForwardPlan,
    tokens: Seq<u32>,
    offset: int,
    keep: Option<Span>,
    hidden: int,
    inner: int,
    vocab: int,
    i: int,
    c: int,
)
    requires
        r.sound(),
        attention::sizes_fit(model.cfg),
        0 < model.cfg.per_head_dim_spec(),
        model.cfg.num_attention_heads % model.cfg.kv_heads_spec() == 0,
        0 <= offset,
        offset + tokens.len() <= i32::MAX,
        plan.is_plan(model.cfg, tokens, offset),
        match keep {
            Some(span) => span == (Span {
                seq_len: tokens.len() as i32,
                offset: offset as i32,
                new_end: (offset + tokens.len()) as i32,
            }),
            None => offset == 0,
        },
        r.shaping.mask == seq![tokens.len() as int, offset + tokens.len()],
        forall|q: int, k: int| (#[trigger] (r.sees)(MaskKind::Absent, q, k)),
        plan.mask matches Some(rows) ==> forall|q: int, k: int|
            0 <= q < tokens.len() && 0 <= k < offset + tokens.len() ==> (#[trigger] (r.sees)(
                MaskKind::Causal,
                q,
                k,
            )) == rows@[q]@[k],
        0 <= hidden,
        0 <= inner,
        model_shaped(
            model,
            r.shaping,
            configured(model.cfg, tokens.len() as int, offset, masked(plan), keep),
            hidden,
            inner,
            vocab,
        ),
        0 <= i < tokens.len(),
    ensures
        ({
            let p = configured(model.cfg, tokens.len() as int, offset, masked(plan), keep);
            let ids = tokens.map_values(|t: u32| t as i32);
            let want = logit(r, model, ids, p, hidden, inner, i, c);
            &&& r.seen(p.mask, i, offset + tokens.len()) == Seq::new(
                (offset + tokens.len()) as nat,
                |j: int| j <= offset + i,
            )
            &&& r.value(forward_term(model, plan, keep, true))(0, 0, i, c) == want
            &&& i == tokens.len() - 1 ==> r.value(forward_term(model, plan, keep, false))(
                0,
                0,
                0,
                c,
            ) == want
        }),
{
    let p = configured(model.cfg, tokens.len() as int, offset, masked(plan), keep);
    let ids = tokens.map_values(|t: u32| t as i32);
    qwen3_forward::law_planned_passes_are_consistent(model.cfg, plan, tokens, keep);
    let heads = model.cfg.num_attention_heads as int;
    let kv_heads = model.cfg.kv_heads_spec() as int;
    assert(0 <= heads / kv_heads <= heads) by (nonlinear_arith)
        requires
            0 < heads,
            0 < kv_heads,
    ;
    assert(pass_of(plan, keep) == p);
    assert(0 < p.repeats) by (nonlinear_arith)
        requires
            p.n_heads == p.kv_heads * p.repeats,
            0 < p.n_heads,
            0 < p.kv_heads,
    ;
    law_logits(r, model, ids, p, hidden, inner, vocab, i, c);
    let got = r.seen(p.mask, i, offset + tokens.len());
    assert(got =~= Seq::new((offset + tokens.len()) as nat, |j: int| j <= offset + i));
    assert(forward_term(model, plan, keep, true) == logits_term(model, ids, p));
    let all = logits_term(model, ids, p);
    assert(forward_term(model, plan, keep, false) == all.row(plan.last_row));
}

} // verus!
