//! Steps of a forward pass that several architectures take.

use vstd::prelude::*;

use crate::graph;
use crate::graph::{Graph, RopeBase, Shaping, Term};
use crate::weights::{Quantized, RmsNorm};

verus! {

/// How queries or keys are laid out and turned.
#[derive(Debug, Clone, Copy, PartialEq, Eq, Structural)]
pub struct Turn {
    pub seq_len: i32,
    pub heads: i32,
    pub dim: i32,
    pub base: RopeBase,
    /// The position of the first of them.
    pub offset: i32,
}

/// The queries or keys of some heads: projected, normalised head by head, and
/// turned by their positions.
pub open spec fn turned<A>(h: Term<A>, w: Quantized<A>, norm: RmsNorm<A>, t: Turn) -> Term<A> {
    h.linear(w).reshape(seq![t.seq_len, t.heads, t.dim]).norm(norm).swap_first().rope(
        t.dim,
        t.base,
        t.offset,
    )
}

/// Adds the steps of [`turned`].
pub fn push_turned<'a, A>(
    g: &mut Graph<'a, A>,
    h: usize,
    w: &'a Quantized<A>,
    norm: &'a RmsNorm<A>,
    t: Turn,
) -> (r: usize)
    requires
        old(g).well_formed(),
        old(g).holds(h),
    ensures
        final(g).extends(*old(g)),
        final(g).holds(r),
        final(g).at(r) == turned(old(g).at(h), *w, *norm, t),
{
    let shape = vec![t.seq_len, t.heads, t.dim];
    assert(shape@ =~= seq![t.seq_len, t.heads, t.dim]);
    let q = g.linear(h, w);
    let q = g.reshape(q, shape);
    let q = g.norm(q, norm);
    let q = g.swap_first(q);
    g.rope(q, t.dim, t.base, t.offset)
}

/// The shape of what is turned.
pub proof fn lemma_turned<A>(
    s: Shaping<A>,
    h: Term<A>,
    w: Quantized<A>,
    norm: RmsNorm<A>,
    t: Turn,
    hidden: int,
)
    requires
        s.shape(h) == Some(seq![t.seq_len as int, hidden]),
        s.is_matrix(w, t.heads * t.dim, hidden),
        s.is_norm(norm, t.dim as int),
    ensures
        s.shape(turned(h, w, norm, t)) == Some(
            seq![t.heads as int, t.seq_len as int, t.dim as int],
        ),
{
    let a = h.linear(w);
    graph::lemma_linear(s, h, w, t.seq_len as int, t.heads * t.dim, hidden);
    graph::lemma_reshape_to_heads(s, a, t.seq_len, t.heads, t.dim);
    let b = a.reshape(seq![t.seq_len, t.heads, t.dim]);
    let c = b.norm(norm);
    assert(s.shape(c) == s.shape(b));
    let d = c.swap_first();
    assert(s.shape(d) == Some(seq![t.heads as int, t.seq_len as int, t.dim as int]));
}

/// What the first projection of a feed-forward network goes through.
#[derive(Debug, Clone, Copy, PartialEq, Eq, Structural)]
pub enum Activation {
    Silu,
    Gelu,
}

/// The first projection of a feed-forward network, activated.
pub open spec fn activated<A>(x: Term<A>, by: Activation) -> Term<A> {
    match by {
        Activation::Silu => x.silu(),
        Activation::Gelu => x.gelu(),
    }
}

/// A gated feed-forward network.
pub open spec fn gated<A>(
    h: Term<A>,
    by: Activation,
    gate_proj: Quantized<A>,
    up_proj: Quantized<A>,
    down_proj: Quantized<A>,
) -> Term<A> {
    activated(h.linear(gate_proj), by).times(h.linear(up_proj)).linear(down_proj)
}

/// Adds the steps of [`gated`].
pub fn push_gated<'a, A>(
    g: &mut Graph<'a, A>,
    h: usize,
    by: Activation,
    gate_proj: &'a Quantized<A>,
    up_proj: &'a Quantized<A>,
    down_proj: &'a Quantized<A>,
) -> (r: usize)
    requires
        old(g).well_formed(),
        old(g).holds(h),
    ensures
        final(g).extends(*old(g)),
        final(g).holds(r),
        final(g).at(r) == gated(old(g).at(h), by, *gate_proj, *up_proj, *down_proj),
{
    let opened = g.linear(h, gate_proj);
    let up = g.linear(h, up_proj);
    let opened = match by {
        Activation::Silu => g.silu(opened),
        Activation::Gelu => g.gelu(opened),
    };
    let both = g.multiply(opened, up);
    g.linear(both, down_proj)
}

/// The shape of what a gated feed-forward network gives.
pub proof fn lemma_gated<A>(
    s: Shaping<A>,
    h: Term<A>,
    by: Activation,
    gate_proj: Quantized<A>,
    up_proj: Quantized<A>,
    down_proj: Quantized<A>,
    n: int,
    hidden: int,
    inner: int,
)
    requires
        s.shape(h) == Some(seq![n, hidden]),
        s.is_matrix(gate_proj, inner, hidden),
        s.is_matrix(up_proj, inner, hidden),
        s.is_matrix(down_proj, hidden, inner),
    ensures
        s.shape(gated(h, by, gate_proj, up_proj, down_proj)) == Some(seq![n, hidden]),
{
    graph::lemma_linear(s, h, gate_proj, n, inner, hidden);
    graph::lemma_linear(s, h, up_proj, n, inner, hidden);
    let opened = activated(h.linear(gate_proj), by);
    assert(s.shape(opened) == Some(seq![n, inner]));
    let both = opened.times(h.linear(up_proj));
    assert(s.shape(both) == Some(seq![n, inner]));
    graph::lemma_linear(s, both, down_proj, n, hidden, inner);
}

} // verus!
