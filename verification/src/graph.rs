//! The arithmetic of a forward pass, as a list of steps for the array library.
//!
//! Each step gives one array, from arrays that earlier steps gave and from the
//! weights of the model. What the array of a step is, is its [`Term`].

use vstd::prelude::*;

use crate::cache::Span;
use crate::float_bits::F32;
use crate::granite::MambaMixer;
use crate::weights::{Quantized, RmsNorm};

verus! {

/// A number that arrays are multiplied by.
#[derive(Debug, Clone, Copy, PartialEq, Eq, Structural)]
pub enum Factor {
    /// This number.
    Given(F32),
    /// One over this number.
    Inverse(F32),
    /// The square root of this number.
    Sqrt(usize),
    /// One over the square root of this number.
    InverseSqrt(usize),
    /// This number to the power of minus one half.
    MinusHalfPower(usize),
}

/// The frequencies of a rotary position embedding.
#[derive(Debug, Clone, Copy, PartialEq, Eq, Structural)]
pub enum RopeBase {
    /// Powers of the configuration's `rope_theta`.
    Config,
    /// Powers of the base of the layers with sliding attention.
    Sliding,
    /// The frequencies of the layers with full attention.
    Full,
}

/// The mask of an attention.
#[derive(Debug, Clone, Copy, PartialEq, Eq, Structural)]
pub enum MaskKind {
    /// None: every query sees every key.
    Absent,
    /// The mask without a window.
    Causal,
    /// The mask with the sliding window.
    Sliding,
}

/// Keys or values.
#[derive(Debug, Clone, Copy, PartialEq, Eq, Structural)]
pub enum Part {
    Keys,
    Values,
}

/// A step of a forward pass.
#[derive(Debug)]
pub enum Op<'a, A> {
    /// Token ids.
    Tokens(Vec<i32>),
    /// The rows of an embedding table.
    Lookup { table: &'a Quantized<A>, tokens: usize },
    /// The product with a quantized matrix.
    Linear { x: usize, w: &'a Quantized<A> },
    /// A normalisation with a weight.
    Norm { x: usize, norm: &'a RmsNorm<A> },
    /// A normalisation without a weight.
    PlainNorm { x: usize, eps: F32 },
    /// The product with a number.
    Scale { x: usize, by: Factor },
    /// The product with an array of one number.
    ScaleBy { x: usize, by: &'a A },
    /// The same numbers in another shape.
    Reshape { x: usize, shape: Vec<i32> },
    /// The first two of three axes change places.
    SwapFirst { x: usize },
    /// The middle two of four axes change places.
    SwapMiddle { x: usize },
    /// A first axis of one is added.
    Batch { x: usize },
    /// A rotary position embedding.
    Rope { x: usize, dims: i32, base: RopeBase, offset: i32 },
    /// Each entry of the first axis, `times` times over.
    Repeat { x: usize, times: i32 },
    /// Keys or values are written to a layer's buffer, and all that it holds is
    /// read back.
    Keep { x: usize, layer: usize, part: Part, kv_heads: i32, head_dim: i32, span: Span },
    /// Scaled dot-product attention.
    Attend { q: usize, k: usize, v: usize, scale: Factor, mask: MaskKind },
    /// The sum.
    Add { a: usize, b: usize },
    /// The product, number by number.
    Multiply { a: usize, b: usize },
    /// The sigmoid linear unit.
    Silu { x: usize },
    /// The Gaussian error linear unit, approximated.
    Gelu { x: usize },
    /// A row of a matrix.
    Row { x: usize, row: i32 },
    /// An entry of the middle of three axes.
    Slot { x: usize, index: i32 },
    /// Each number is brought below `cap` in size, by way of a hyperbolic
    /// tangent.
    Softcap { x: usize, cap: F32 },
    /// The last axis is cut at these places, and this one of the pieces taken.
    Piece { x: usize, at: Vec<i32>, which: usize },
    /// Once the places of each row are ordered by the size of what is there,
    /// those from `from` on.
    TopIndices { x: usize, from: i32 },
    /// Of each row what is at these places.
    TakeAlong { x: usize, indices: usize },
    /// The softmax of each row.
    Softmax { x: usize },
    /// Two axes of one are added before the last.
    Spread { x: usize },
    /// The product with the matrices of the experts at these places.
    Experts { x: usize, w: &'a Quantized<A>, indices: usize },
    /// The product with two matrices of each of the experts at these places,
    /// laid side by side.
    ExpertPair {
        x: usize,
        layer: usize,
        first: &'a Quantized<A>,
        second: &'a Quantized<A>,
        indices: usize,
    },
    /// The axis before the last, of one, is dropped.
    DropAxis { x: usize },
    /// A last axis of one is added.
    LastAxis { x: usize },
    /// Each row is multiplied by a number.
    Weigh { x: usize, by: usize },
    /// The sum over the axis before the last.
    SumRows { x: usize },
    /// The time steps of a recurrent update.
    Timestep { x: usize, bias: &'a A },
    /// The convolution of a Mamba block, in one launch, with a bias.
    ConvFused { x: usize, layer: usize, mixer: &'a MambaMixer<A> },
    /// The convolution of a Mamba block, without a bias.
    ConvPlain { x: usize, layer: usize, mixer: &'a MambaMixer<A> },
    /// The recurrent update of a Mamba block.
    SsmUpdate {
        hidden: usize,
        b: usize,
        c: usize,
        dt: usize,
        layer: usize,
        mixer: &'a MambaMixer<A>,
    },
}

/// The array that a step gives.
pub enum Term<A> {
    Tokens(Seq<i32>),
    Lookup(Quantized<A>, Box<Term<A>>),
    Linear(Box<Term<A>>, Quantized<A>),
    Norm(Box<Term<A>>, RmsNorm<A>),
    PlainNorm(Box<Term<A>>, F32),
    Scale(Box<Term<A>>, Factor),
    ScaleBy(Box<Term<A>>, A),
    Reshape(Box<Term<A>>, Seq<i32>),
    SwapFirst(Box<Term<A>>),
    SwapMiddle(Box<Term<A>>),
    Batch(Box<Term<A>>),
    Rope(Box<Term<A>>, i32, RopeBase, i32),
    Repeat(Box<Term<A>>, i32),
    Keep(Box<Term<A>>, usize, Part, i32, i32, Span),
    Attend(Box<Term<A>>, Box<Term<A>>, Box<Term<A>>, Factor, MaskKind),
    Add(Box<Term<A>>, Box<Term<A>>),
    Multiply(Box<Term<A>>, Box<Term<A>>),
    Silu(Box<Term<A>>),
    Gelu(Box<Term<A>>),
    Row(Box<Term<A>>, i32),
    Slot(Box<Term<A>>, i32),
    Softcap(Box<Term<A>>, F32),
    Piece(Box<Term<A>>, Seq<i32>, usize),
    TopIndices(Box<Term<A>>, i32),
    TakeAlong(Box<Term<A>>, Box<Term<A>>),
    Softmax(Box<Term<A>>),
    Spread(Box<Term<A>>),
    Experts(Box<Term<A>>, Quantized<A>, Box<Term<A>>),
    ExpertPair(Box<Term<A>>, usize, Quantized<A>, Quantized<A>, Box<Term<A>>),
    DropAxis(Box<Term<A>>),
    LastAxis(Box<Term<A>>),
    Weigh(Box<Term<A>>, Box<Term<A>>),
    SumRows(Box<Term<A>>),
    Timestep(Box<Term<A>>, A),
    ConvFused(Box<Term<A>>, usize, MambaMixer<A>),
    ConvPlain(Box<Term<A>>, usize, MambaMixer<A>),
    SsmUpdate(
        Box<Term<A>>,
        Box<Term<A>>,
        Box<Term<A>>,
        Box<Term<A>>,
        usize,
        MambaMixer<A>,
    ),
}

/// Whether a step uses only what the first `n` steps gave.
pub open spec fn uses_below<A>(op: Op<A>, n: nat) -> bool {
    match op {
        Op::Tokens(_) => true,
        Op::Lookup { table, tokens } => tokens < n,
        Op::Linear { x, w } => x < n,
        Op::Norm { x, norm } => x < n,
        Op::PlainNorm { x, eps } => x < n,
        Op::Scale { x, by } => x < n,
        Op::ScaleBy { x, by } => x < n,
        Op::Reshape { x, shape } => x < n,
        Op::SwapFirst { x } => x < n,
        Op::SwapMiddle { x } => x < n,
        Op::Batch { x } => x < n,
        Op::Rope { x, dims, base, offset } => x < n,
        Op::Repeat { x, times } => x < n,
        Op::Keep { x, layer, part, kv_heads, head_dim, span } => x < n,
        Op::Attend { q, k, v, scale, mask } => q < n && k < n && v < n,
        Op::Add { a, b } => a < n && b < n,
        Op::Multiply { a, b } => a < n && b < n,
        Op::Silu { x } => x < n,
        Op::Gelu { x } => x < n,
        Op::Row { x, row } => x < n,
        Op::Slot { x, index } => x < n,
        Op::Softcap { x, cap } => x < n,
        Op::Piece { x, at, which } => x < n,
        Op::TopIndices { x, from } => x < n,
        Op::TakeAlong { x, indices } => x < n && indices < n,
        Op::Softmax { x } => x < n,
        Op::Spread { x } => x < n,
        Op::Experts { x, w, indices } => x < n && indices < n,
        Op::ExpertPair { x, layer, first, second, indices } => x < n && indices < n,
        Op::DropAxis { x } => x < n,
        Op::LastAxis { x } => x < n,
        Op::Weigh { x, by } => x < n && by < n,
        Op::SumRows { x } => x < n,
        Op::Timestep { x, bias } => x < n,
        Op::ConvFused { x, layer, mixer } => x < n,
        Op::ConvPlain { x, layer, mixer } => x < n,
        Op::SsmUpdate { hidden, b, c, dt, layer, mixer } => hidden < n && b < n && c < n && dt < n,
    }
}

/// The array that a step gives, where the steps before it gave `t`.
pub open spec fn denoted<A>(op: Op<A>, t: Seq<Term<A>>) -> Term<A> {
    match op {
        Op::Tokens(ids) => Term::Tokens(ids@),
        Op::Lookup { table, tokens } => Term::Lookup(*table, Box::new(t[tokens as int])),
        Op::Linear { x, w } => Term::Linear(Box::new(t[x as int]), *w),
        Op::Norm { x, norm } => Term::Norm(Box::new(t[x as int]), *norm),
        Op::PlainNorm { x, eps } => Term::PlainNorm(Box::new(t[x as int]), eps),
        Op::Scale { x, by } => Term::Scale(Box::new(t[x as int]), by),
        Op::ScaleBy { x, by } => Term::ScaleBy(Box::new(t[x as int]), *by),
        Op::Reshape { x, shape } => Term::Reshape(Box::new(t[x as int]), shape@),
        Op::SwapFirst { x } => Term::SwapFirst(Box::new(t[x as int])),
        Op::SwapMiddle { x } => Term::SwapMiddle(Box::new(t[x as int])),
        Op::Batch { x } => Term::Batch(Box::new(t[x as int])),
        Op::Rope { x, dims, base, offset } => Term::Rope(
            Box::new(t[x as int]),
            dims,
            base,
            offset,
        ),
        Op::Repeat { x, times } => Term::Repeat(Box::new(t[x as int]), times),
        Op::Keep { x, layer, part, kv_heads, head_dim, span } => Term::Keep(
            Box::new(t[x as int]),
            layer,
            part,
            kv_heads,
            head_dim,
            span,
        ),
        Op::Attend { q, k, v, scale, mask } => Term::Attend(
            Box::new(t[q as int]),
            Box::new(t[k as int]),
            Box::new(t[v as int]),
            scale,
            mask,
        ),
        Op::Add { a, b } => Term::Add(Box::new(t[a as int]), Box::new(t[b as int])),
        Op::Multiply { a, b } => Term::Multiply(Box::new(t[a as int]), Box::new(t[b as int])),
        Op::Silu { x } => Term::Silu(Box::new(t[x as int])),
        Op::Gelu { x } => Term::Gelu(Box::new(t[x as int])),
        Op::Row { x, row } => Term::Row(Box::new(t[x as int]), row),
        Op::Slot { x, index } => Term::Slot(Box::new(t[x as int]), index),
        Op::Softcap { x, cap } => Term::Softcap(Box::new(t[x as int]), cap),
        Op::Piece { x, at, which } => Term::Piece(Box::new(t[x as int]), at@, which),
        Op::TopIndices { x, from } => Term::TopIndices(Box::new(t[x as int]), from),
        Op::TakeAlong { x, indices } => Term::TakeAlong(
            Box::new(t[x as int]),
            Box::new(t[indices as int]),
        ),
        Op::Softmax { x } => Term::Softmax(Box::new(t[x as int])),
        Op::Spread { x } => Term::Spread(Box::new(t[x as int])),
        Op::Experts { x, w, indices } => Term::Experts(
            Box::new(t[x as int]),
            *w,
            Box::new(t[indices as int]),
        ),
        Op::ExpertPair { x, layer, first, second, indices } => Term::ExpertPair(
            Box::new(t[x as int]),
            layer,
            *first,
            *second,
            Box::new(t[indices as int]),
        ),
        Op::DropAxis { x } => Term::DropAxis(Box::new(t[x as int])),
        Op::LastAxis { x } => Term::LastAxis(Box::new(t[x as int])),
        Op::Weigh { x, by } => Term::Weigh(Box::new(t[x as int]), Box::new(t[by as int])),
        Op::SumRows { x } => Term::SumRows(Box::new(t[x as int])),
        Op::Timestep { x, bias } => Term::Timestep(Box::new(t[x as int]), *bias),
        Op::ConvFused { x, layer, mixer } => Term::ConvFused(
            Box::new(t[x as int]),
            layer,
            *mixer,
        ),
        Op::ConvPlain { x, layer, mixer } => Term::ConvPlain(
            Box::new(t[x as int]),
            layer,
            *mixer,
        ),
        Op::SsmUpdate { hidden, b, c, dt, layer, mixer } => Term::SsmUpdate(
            Box::new(t[hidden as int]),
            Box::new(t[b as int]),
            Box::new(t[c as int]),
            Box::new(t[dt as int]),
            layer,
            *mixer,
        ),
    }
}

/// The steps of a forward pass.
pub struct Graph<'a, A> {
    pub ops: Vec<Op<'a, A>>,
    pub terms: Ghost<Seq<Term<A>>>,
}

impl<'a, A> Graph<'a, A> {
    /// Whether the terms are those of the steps, and each step uses only what
    /// came before it.
    #[verifier::opaque]
    pub open spec fn well_formed(self) -> bool {
        &&& self.terms@.len() == self.ops@.len()
        &&& forall|i: int|
            0 <= i < self.ops@.len() ==> uses_below(#[trigger] self.ops@[i], i as nat)
                && self.terms@[i] == denoted(self.ops@[i], self.terms@)
    }

    /// The array that step `i` gives.
    pub closed spec fn at(self, i: usize) -> Term<A> {
        self.terms@[i as int]
    }

    /// Whether this has the steps of `earlier`, and perhaps more.
    pub open spec fn extends(self, earlier: Self) -> bool {
        &&& self.well_formed()
        &&& earlier.ops@.len() <= self.ops@.len()
        &&& forall|i: usize| i < earlier.ops@.len() ==> #[trigger] self.at(i) == earlier.at(i)
    }

    /// Whether there is a step `i`.
    pub open spec fn holds(self, i: usize) -> bool {
        i < self.ops@.len()
    }

    /// No steps.
    pub fn new() -> (r: Self)
        ensures
            r.well_formed(),
            r.ops@.len() == 0,
    {
        proof {
            reveal(Graph::well_formed);
        }
        Graph { ops: Vec::new(), terms: Ghost(Seq::empty()) }
    }

    /// Adds a step, and gives back its number.
    fn push(&mut self, op: Op<'a, A>) -> (r: usize)
        requires
            old(self).well_formed(),
            uses_below(op, old(self).ops@.len()),
        ensures
            final(self).extends(*old(self)),
            final(self).ops@ == old(self).ops@.push(op),
            final(self).holds(r),
            r == old(self).ops@.len(),
            final(self).at(r) == denoted(op, old(self).terms@),
    {
        proof {
            reveal(Graph::well_formed);
        }
        let r = self.ops.len();
        let ghost before = self.terms@;
        let ghost after = before.push(denoted(op, before));
        proof {
            assert(denoted(op, after) == denoted(op, before));
            assert forall|i: int| 0 <= i < self.ops@.len() implies after[i] == denoted(
                #[trigger] self.ops@[i],
                after,
            ) by {
                assert(uses_below(self.ops@[i], i as nat));
            }
        }
        self.ops.push(op);
        self.terms = Ghost(after);
        r
    }

    /// Token ids.
    pub fn tokens(&mut self, ids: Vec<i32>) -> (r: usize)
        requires
            old(self).well_formed(),
        ensures
            final(self).extends(*old(self)),
            final(self).holds(r),
            final(self).at(r) == Term::<A>::Tokens(ids@),
    {
        self.push(Op::Tokens(ids))
    }

    /// The rows of an embedding table.
    pub fn lookup(&mut self, table: &'a Quantized<A>, tokens: usize) -> (r: usize)
        requires
            old(self).well_formed(),
            old(self).holds(tokens),
        ensures
            final(self).extends(*old(self)),
            final(self).holds(r),
            final(self).at(r) == Term::Lookup(*table, Box::new(old(self).at(tokens))),
    {
        self.push(Op::Lookup { table, tokens })
    }

    /// The product with a quantized matrix.
    pub fn linear(&mut self, x: usize, w: &'a Quantized<A>) -> (r: usize)
        requires
            old(self).well_formed(),
            old(self).holds(x),
        ensures
            final(self).extends(*old(self)),
            final(self).holds(r),
            final(self).at(r) == old(self).at(x).linear(*w),
    {
        self.push(Op::Linear { x, w })
    }

    /// A normalisation with a weight.
    pub fn norm(&mut self, x: usize, norm: &'a RmsNorm<A>) -> (r: usize)
        requires
            old(self).well_formed(),
            old(self).holds(x),
        ensures
            final(self).extends(*old(self)),
            final(self).holds(r),
            final(self).at(r) == old(self).at(x).norm(*norm),
    {
        self.push(Op::Norm { x, norm })
    }

    /// A normalisation without a weight.
    pub fn plain_norm(&mut self, x: usize, eps: F32) -> (r: usize)
        requires
            old(self).well_formed(),
            old(self).holds(x),
        ensures
            final(self).extends(*old(self)),
            final(self).holds(r),
            final(self).at(r) == old(self).at(x).plain_norm(eps),
    {
        self.push(Op::PlainNorm { x, eps })
    }

    /// The product with a number.
    pub fn scale(&mut self, x: usize, by: Factor) -> (r: usize)
        requires
            old(self).well_formed(),
            old(self).holds(x),
        ensures
            final(self).extends(*old(self)),
            final(self).holds(r),
            final(self).at(r) == old(self).at(x).scale(by),
    {
        self.push(Op::Scale { x, by })
    }

    /// The product with an array of one number.
    pub fn scale_by(&mut self, x: usize, by: &'a A) -> (r: usize)
        requires
            old(self).well_formed(),
            old(self).holds(x),
        ensures
            final(self).extends(*old(self)),
            final(self).holds(r),
            final(self).at(r) == old(self).at(x).scale_by(*by),
    {
        self.push(Op::ScaleBy { x, by })
    }

    /// The same numbers in another shape.
    pub fn reshape(&mut self, x: usize, shape: Vec<i32>) -> (r: usize)
        requires
            old(self).well_formed(),
            old(self).holds(x),
        ensures
            final(self).extends(*old(self)),
            final(self).holds(r),
            final(self).at(r) == old(self).at(x).reshape(shape@),
    {
        self.push(Op::Reshape { x, shape })
    }

    /// The first two of three axes change places.
    pub fn swap_first(&mut self, x: usize) -> (r: usize)
        requires
            old(self).well_formed(),
            old(self).holds(x),
        ensures
            final(self).extends(*old(self)),
            final(self).holds(r),
            final(self).at(r) == old(self).at(x).swap_first(),
    {
        self.push(Op::SwapFirst { x })
    }

    /// The middle two of four axes change places.
    pub fn swap_middle(&mut self, x: usize) -> (r: usize)
        requires
            old(self).well_formed(),
            old(self).holds(x),
        ensures
            final(self).extends(*old(self)),
            final(self).holds(r),
            final(self).at(r) == old(self).at(x).swap_middle(),
    {
        self.push(Op::SwapMiddle { x })
    }

    /// A first axis of one is added.
    pub fn batch(&mut self, x: usize) -> (r: usize)
        requires
            old(self).well_formed(),
            old(self).holds(x),
        ensures
            final(self).extends(*old(self)),
            final(self).holds(r),
            final(self).at(r) == old(self).at(x).batch(),
    {
        self.push(Op::Batch { x })
    }

    /// A rotary position embedding.
    pub fn rope(&mut self, x: usize, dims: i32, base: RopeBase, offset: i32) -> (r: usize)
        requires
            old(self).well_formed(),
            old(self).holds(x),
        ensures
            final(self).extends(*old(self)),
            final(self).holds(r),
            final(self).at(r) == old(self).at(x).rope(dims, base, offset),
    {
        self.push(Op::Rope { x, dims, base, offset })
    }

    /// Each entry of the first axis, `times` times over.
    pub fn repeat(&mut self, x: usize, times: i32) -> (r: usize)
        requires
            old(self).well_formed(),
            old(self).holds(x),
        ensures
            final(self).extends(*old(self)),
            final(self).holds(r),
            final(self).at(r) == old(self).at(x).repeat(times),
    {
        self.push(Op::Repeat { x, times })
    }

    /// Keys or values are kept, and all that are there are read back.
    pub fn keep(
        &mut self,
        x: usize,
        layer: usize,
        part: Part,
        kv_heads: i32,
        head_dim: i32,
        span: Span,
    ) -> (r: usize)
        requires
            old(self).well_formed(),
            old(self).holds(x),
        ensures
            final(self).extends(*old(self)),
            final(self).holds(r),
            final(self).at(r) == old(self).at(x).keep(layer, part, kv_heads, head_dim, span),
    {
        self.push(Op::Keep { x, layer, part, kv_heads, head_dim, span })
    }

    /// Scaled dot-product attention.
    pub fn attend(
        &mut self,
        q: usize,
        k: usize,
        v: usize,
        scale: Factor,
        mask: MaskKind,
    ) -> (r: usize)
        requires
            old(self).well_formed(),
            old(self).holds(q),
            old(self).holds(k),
            old(self).holds(v),
        ensures
            final(self).extends(*old(self)),
            final(self).holds(r),
            final(self).at(r) == old(self).at(q).attend(
                old(self).at(k),
                old(self).at(v),
                scale,
                mask,
            ),
    {
        self.push(Op::Attend { q, k, v, scale, mask })
    }

    /// The sum.
    pub fn add_up(&mut self, a: usize, b: usize) -> (r: usize)
        requires
            old(self).well_formed(),
            old(self).holds(a),
            old(self).holds(b),
        ensures
            final(self).extends(*old(self)),
            final(self).holds(r),
            final(self).at(r) == old(self).at(a).plus(old(self).at(b)),
    {
        self.push(Op::Add { a, b })
    }

    /// The product, number by number.
    pub fn multiply(&mut self, a: usize, b: usize) -> (r: usize)
        requires
            old(self).well_formed(),
            old(self).holds(a),
            old(self).holds(b),
        ensures
            final(self).extends(*old(self)),
            final(self).holds(r),
            final(self).at(r) == old(self).at(a).times(old(self).at(b)),
    {
        self.push(Op::Multiply { a, b })
    }

    /// The sigmoid linear unit.
    pub fn silu(&mut self, x: usize) -> (r: usize)
        requires
            old(self).well_formed(),
            old(self).holds(x),
        ensures
            final(self).extends(*old(self)),
            final(self).holds(r),
            final(self).at(r) == old(self).at(x).silu(),
    {
        self.push(Op::Silu { x })
    }

    /// The Gaussian error linear unit, approximated.
    pub fn gelu(&mut self, x: usize) -> (r: usize)
        requires
            old(self).well_formed(),
            old(self).holds(x),
        ensures
            final(self).extends(*old(self)),
            final(self).holds(r),
            final(self).at(r) == old(self).at(x).gelu(),
    {
        self.push(Op::Gelu { x })
    }

    /// A row of a matrix.
    pub fn row(&mut self, x: usize, row: i32) -> (r: usize)
        requires
            old(self).well_formed(),
            old(self).holds(x),
        ensures
            final(self).extends(*old(self)),
            final(self).holds(r),
            final(self).at(r) == old(self).at(x).row(row),
    {
        self.push(Op::Row { x, row })
    }

    /// An entry of the middle of three axes.
    pub fn slot(&mut self, x: usize, index: i32) -> (r: usize)
        requires
            old(self).well_formed(),
            old(self).holds(x),
        ensures
            final(self).extends(*old(self)),
            final(self).holds(r),
            final(self).at(r) == old(self).at(x).slot(index),
    {
        self.push(Op::Slot { x, index })
    }

    /// Each number is brought below `cap` in size.
    pub fn softcap(&mut self, x: usize, cap: F32) -> (r: usize)
        requires
            old(self).well_formed(),
            old(self).holds(x),
        ensures
            final(self).extends(*old(self)),
            final(self).holds(r),
            final(self).at(r) == old(self).at(x).softcap(cap),
    {
        self.push(Op::Softcap { x, cap })
    }

    /// One of the pieces that the last axis is cut into.
    pub fn piece(&mut self, x: usize, at: Vec<i32>, which: usize) -> (r: usize)
        requires
            old(self).well_formed(),
            old(self).holds(x),
        ensures
            final(self).extends(*old(self)),
            final(self).holds(r),
            final(self).at(r) == old(self).at(x).piece(at@, which),
    {
        self.push(Op::Piece { x, at, which })
    }

    /// The places of the largest numbers of each row.
    pub fn top_indices(&mut self, x: usize, from: i32) -> (r: usize)
        requires
            old(self).well_formed(),
            old(self).holds(x),
        ensures
            final(self).extends(*old(self)),
            final(self).holds(r),
            final(self).at(r) == old(self).at(x).top_indices(from),
    {
        self.push(Op::TopIndices { x, from })
    }

    /// Of each row what is at these places.
    pub fn take_along(&mut self, x: usize, indices: usize) -> (r: usize)
        requires
            old(self).well_formed(),
            old(self).holds(x),
            old(self).holds(indices),
        ensures
            final(self).extends(*old(self)),
            final(self).holds(r),
            final(self).at(r) == old(self).at(x).take_along(old(self).at(indices)),
    {
        self.push(Op::TakeAlong { x, indices })
    }

    /// The softmax of each row.
    pub fn softmax(&mut self, x: usize) -> (r: usize)
        requires
            old(self).well_formed(),
            old(self).holds(x),
        ensures
            final(self).extends(*old(self)),
            final(self).holds(r),
            final(self).at(r) == old(self).at(x).softmax(),
    {
        self.push(Op::Softmax { x })
    }

    /// Two axes of one are added before the last.
    pub fn spread(&mut self, x: usize) -> (r: usize)
        requires
            old(self).well_formed(),
            old(self).holds(x),
        ensures
            final(self).extends(*old(self)),
            final(self).holds(r),
            final(self).at(r) == old(self).at(x).spread(),
    {
        self.push(Op::Spread { x })
    }

    /// The product with the matrices of some experts.
    pub fn experts(&mut self, x: usize, w: &'a Quantized<A>, indices: usize) -> (r: usize)
        requires
            old(self).well_formed(),
            old(self).holds(x),
            old(self).holds(indices),
        ensures
            final(self).extends(*old(self)),
            final(self).holds(r),
            final(self).at(r) == old(self).at(x).experts(*w, old(self).at(indices)),
    {
        self.push(Op::Experts { x, w, indices })
    }

    /// The product with two matrices of some experts, side by side.
    pub fn expert_pair(
        &mut self,
        x: usize,
        layer: usize,
        first: &'a Quantized<A>,
        second: &'a Quantized<A>,
        indices: usize,
    ) -> (r: usize)
        requires
            old(self).well_formed(),
            old(self).holds(x),
            old(self).holds(indices),
        ensures
            final(self).extends(*old(self)),
            final(self).holds(r),
            final(self).at(r) == old(self).at(x).expert_pair(
                layer,
                *first,
                *second,
                old(self).at(indices),
            ),
    {
        self.push(Op::ExpertPair { x, layer, first, second, indices })
    }

    /// The axis before the last, of one, is dropped.
    pub fn drop_axis(&mut self, x: usize) -> (r: usize)
        requires
            old(self).well_formed(),
            old(self).holds(x),
        ensures
            final(self).extends(*old(self)),
            final(self).holds(r),
            final(self).at(r) == old(self).at(x).drop_axis(),
    {
        self.push(Op::DropAxis { x })
    }

    /// A last axis of one is added.
    pub fn last_axis(&mut self, x: usize) -> (r: usize)
        requires
            old(self).well_formed(),
            old(self).holds(x),
        ensures
            final(self).extends(*old(self)),
            final(self).holds(r),
            final(self).at(r) == old(self).at(x).last_axis(),
    {
        self.push(Op::LastAxis { x })
    }

    /// Each row is multiplied by a number.
    pub fn weigh(&mut self, x: usize, by: usize) -> (r: usize)
        requires
            old(self).well_formed(),
            old(self).holds(x),
            old(self).holds(by),
        ensures
            final(self).extends(*old(self)),
            final(self).holds(r),
            final(self).at(r) == old(self).at(x).weigh(old(self).at(by)),
    {
        self.push(Op::Weigh { x, by })
    }

    /// The sum over the axis before the last.
    pub fn sum_rows(&mut self, x: usize) -> (r: usize)
        requires
            old(self).well_formed(),
            old(self).holds(x),
        ensures
            final(self).extends(*old(self)),
            final(self).holds(r),
            final(self).at(r) == old(self).at(x).sum_rows(),
    {
        self.push(Op::SumRows { x })
    }

    /// The time steps of a recurrent update.
    pub fn timestep(&mut self, x: usize, bias: &'a A) -> (r: usize)
        requires
            old(self).well_formed(),
            old(self).holds(x),
        ensures
            final(self).extends(*old(self)),
            final(self).holds(r),
            final(self).at(r) == old(self).at(x).timestep(*bias),
    {
        self.push(Op::Timestep { x, bias })
    }

    /// The convolution of a Mamba block, with a bias.
    pub fn conv_fused(&mut self, x: usize, layer: usize, mixer: &'a MambaMixer<A>) -> (r: usize)
        requires
            old(self).well_formed(),
            old(self).holds(x),
        ensures
            final(self).extends(*old(self)),
            final(self).holds(r),
            final(self).at(r) == old(self).at(x).conv_fused(layer, *mixer),
    {
        self.push(Op::ConvFused { x, layer, mixer })
    }

    /// The convolution of a Mamba block, without a bias.
    pub fn conv_plain(&mut self, x: usize, layer: usize, mixer: &'a MambaMixer<A>) -> (r: usize)
        requires
            old(self).well_formed(),
            old(self).holds(x),
        ensures
            final(self).extends(*old(self)),
            final(self).holds(r),
            final(self).at(r) == old(self).at(x).conv_plain(layer, *mixer),
    {
        self.push(Op::ConvPlain { x, layer, mixer })
    }

    /// The recurrent update of a Mamba block.
    pub fn ssm_update(
        &mut self,
        hidden: usize,
        b: usize,
        c: usize,
        dt: usize,
        layer: usize,
        mixer: &'a MambaMixer<A>,
    ) -> (r: usize)
        requires
            old(self).well_formed(),
            old(self).holds(hidden),
            old(self).holds(b),
            old(self).holds(c),
            old(self).holds(dt),
        ensures
            final(self).extends(*old(self)),
            final(self).holds(r),
            final(self).at(r) == old(self).at(hidden).ssm_update(
                old(self).at(b),
                old(self).at(c),
                old(self).at(dt),
                layer,
                *mixer,
            ),
    {
        self.push(Op::SsmUpdate { hidden, b, c, dt, layer, mixer })
    }
}

impl<A> Term<A> {
    pub open spec fn linear(self, w: Quantized<A>) -> Term<A> {
        Term::Linear(Box::new(self), w)
    }

    pub open spec fn norm(self, norm: RmsNorm<A>) -> Term<A> {
        Term::Norm(Box::new(self), norm)
    }

    pub open spec fn plain_norm(self, eps: F32) -> Term<A> {
        Term::PlainNorm(Box::new(self), eps)
    }

    pub open spec fn scale(self, by: Factor) -> Term<A> {
        Term::Scale(Box::new(self), by)
    }

    pub open spec fn scale_by(self, by: A) -> Term<A> {
        Term::ScaleBy(Box::new(self), by)
    }

    pub open spec fn reshape(self, shape: Seq<i32>) -> Term<A> {
        Term::Reshape(Box::new(self), shape)
    }

    pub open spec fn swap_first(self) -> Term<A> {
        Term::SwapFirst(Box::new(self))
    }

    pub open spec fn swap_middle(self) -> Term<A> {
        Term::SwapMiddle(Box::new(self))
    }

    pub open spec fn batch(self) -> Term<A> {
        Term::Batch(Box::new(self))
    }

    pub open spec fn rope(self, dims: i32, base: RopeBase, offset: i32) -> Term<A> {
        Term::Rope(Box::new(self), dims, base, offset)
    }

    pub open spec fn repeat(self, times: i32) -> Term<A> {
        Term::Repeat(Box::new(self), times)
    }

    pub open spec fn keep(
        self,
        layer: usize,
        part: Part,
        kv_heads: i32,
        head_dim: i32,
        span: Span,
    ) -> Term<A> {
        Term::Keep(Box::new(self), layer, part, kv_heads, head_dim, span)
    }

    pub open spec fn attend(
        self,
        k: Term<A>,
        v: Term<A>,
        scale: Factor,
        mask: MaskKind,
    ) -> Term<A> {
        Term::Attend(Box::new(self), Box::new(k), Box::new(v), scale, mask)
    }

    pub open spec fn plus(self, other: Term<A>) -> Term<A> {
        Term::Add(Box::new(self), Box::new(other))
    }

    pub open spec fn times(self, other: Term<A>) -> Term<A> {
        Term::Multiply(Box::new(self), Box::new(other))
    }

    pub open spec fn silu(self) -> Term<A> {
        Term::Silu(Box::new(self))
    }

    pub open spec fn gelu(self) -> Term<A> {
        Term::Gelu(Box::new(self))
    }

    pub open spec fn row(self, row: i32) -> Term<A> {
        Term::Row(Box::new(self), row)
    }

    pub open spec fn slot(self, index: i32) -> Term<A> {
        Term::Slot(Box::new(self), index)
    }

    pub open spec fn softcap(self, cap: F32) -> Term<A> {
        Term::Softcap(Box::new(self), cap)
    }

    pub open spec fn piece(self, at: Seq<i32>, which: usize) -> Term<A> {
        Term::Piece(Box::new(self), at, which)
    }

    pub open spec fn top_indices(self, from: i32) -> Term<A> {
        Term::TopIndices(Box::new(self), from)
    }

    pub open spec fn take_along(self, indices: Term<A>) -> Term<A> {
        Term::TakeAlong(Box::new(self), Box::new(indices))
    }

    pub open spec fn softmax(self) -> Term<A> {
        Term::Softmax(Box::new(self))
    }

    pub open spec fn spread(self) -> Term<A> {
        Term::Spread(Box::new(self))
    }

    pub open spec fn experts(self, w: Quantized<A>, indices: Term<A>) -> Term<A> {
        Term::Experts(Box::new(self), w, Box::new(indices))
    }

    pub open spec fn expert_pair(
        self,
        layer: usize,
        first: Quantized<A>,
        second: Quantized<A>,
        indices: Term<A>,
    ) -> Term<A> {
        Term::ExpertPair(Box::new(self), layer, first, second, Box::new(indices))
    }

    pub open spec fn drop_axis(self) -> Term<A> {
        Term::DropAxis(Box::new(self))
    }

    pub open spec fn last_axis(self) -> Term<A> {
        Term::LastAxis(Box::new(self))
    }

    pub open spec fn weigh(self, by: Term<A>) -> Term<A> {
        Term::Weigh(Box::new(self), Box::new(by))
    }

    pub open spec fn sum_rows(self) -> Term<A> {
        Term::SumRows(Box::new(self))
    }

    pub open spec fn timestep(self, bias: A) -> Term<A> {
        Term::Timestep(Box::new(self), bias)
    }

    pub open spec fn conv_fused(self, layer: usize, mixer: MambaMixer<A>) -> Term<A> {
        Term::ConvFused(Box::new(self), layer, mixer)
    }

    pub open spec fn conv_plain(self, layer: usize, mixer: MambaMixer<A>) -> Term<A> {
        Term::ConvPlain(Box::new(self), layer, mixer)
    }

    pub open spec fn ssm_update(
        self,
        b: Term<A>,
        c: Term<A>,
        dt: Term<A>,
        layer: usize,
        mixer: MambaMixer<A>,
    ) -> Term<A> {
        Term::SsmUpdate(
            Box::new(self),
            Box::new(b),
            Box::new(c),
            Box::new(dt),
            layer,
            mixer,
        )
    }
}

/// The same token ids once more.
pub fn copy_ids(ids: &Vec<i32>) -> (r: Vec<i32>)
    ensures
        r@ == ids@,
{
    let mut out: Vec<i32> = Vec::new();
    let mut i: usize = 0;
    while i < ids.len()
        invariant
            i <= ids@.len(),
            out@ =~= ids@.take(i as int),
        decreases ids@.len() - i,
    {
        out.push(ids[i]);
        i = i + 1;
    }
    assert(ids@.take(i as int) =~= ids@);
    out
}

/// The numbers in an array of this shape.
pub open spec fn size(shape: Seq<int>) -> int
    decreases shape.len(),
{
    if shape.len() == 0 {
        1
    } else {
        size(shape.drop_last()) * shape.last()
    }
}

/// Shapes are written in `i32`.
pub open spec fn ints(shape: Seq<i32>) -> Seq<int> {
    shape.map_values(|d: i32| d as int)
}

/// Where piece `i` of an axis of this length begins, if it is cut at these
/// places.
pub open spec fn cut(at: Seq<i32>, i: int, length: int) -> int {
    if i <= 0 {
        0
    } else if i <= at.len() {
        at[i - 1] as int
    } else {
        length
    }
}

/// What is known of shapes: those of the arrays in the checkpoint, and those of
/// the masks.
#[verifier::reject_recursive_types(A)]
pub struct Shaping<A> {
    pub weights: spec_fn(A) -> Seq<int>,
    pub mask: Seq<int>,
}

impl<A> Shaping<A> {
    /// Whether a quantized matrix has this many rows of this many values.
    pub open spec fn is_matrix(self, q: Quantized<A>, rows: int, width: int) -> bool {
        let w = (self.weights)(q.weight);
        let s = (self.weights)(q.scales);
        &&& w.len() == 2 && s.len() == 2 && (self.weights)(q.biases) == s
        &&& w[0] == rows && s[0] == rows
        &&& s[1] * q.group_size == width
        &&& w[1] * 32 == width * q.bits
    }

    /// Whether a normalisation has this many weights.
    pub open spec fn is_norm(self, n: RmsNorm<A>, width: int) -> bool {
        (self.weights)(n.weight) == seq![width]
    }

    /// How many rows a quantized matrix has.
    pub open spec fn rows(self, q: Quantized<A>) -> int {
        (self.weights)(q.weight)[0]
    }

    /// How many values a row of a quantized matrix has.
    pub open spec fn width(self, q: Quantized<A>) -> int {
        (self.weights)(q.scales)[1] * q.group_size
    }

    /// Whether the matrices of some experts have this many rows of this many
    /// values.
    pub open spec fn is_experts(self, q: Quantized<A>, rows: int, width: int) -> bool {
        let w = (self.weights)(q.weight);
        let s = (self.weights)(q.scales);
        &&& w.len() == 3 && s.len() == 3 && (self.weights)(q.biases) == s
        &&& w[0] == s[0] && w[1] == rows && s[1] == rows
        &&& s[2] * q.group_size == width
        &&& w[2] * 32 == width * q.bits
    }

    /// How many rows the matrices of some experts have.
    pub open spec fn expert_rows(self, q: Quantized<A>) -> int {
        (self.weights)(q.weight)[1]
    }

    /// Whether an array and the places of experts go together: for each token
    /// one row for all its experts, or one for each.
    pub open spec fn takes_experts(self, s: Seq<int>, indices: Seq<int>) -> bool {
        &&& s.len() == 4 && indices.len() == 2
        &&& s[0] == indices[0] && (s[1] == 1 || s[1] == indices[1]) && s[2] == 1
    }

    /// Whether the weights of a convolution are as many as its channels and its
    /// kernel make.
    pub open spec fn is_conv(self, mixer: MambaMixer<A>) -> bool {
        size((self.weights)(mixer.conv_weight)) == mixer.sizes.conv_dim
            * mixer.sizes.conv_kernel
    }

    /// The shape of an array, if every step that leads to it is given arrays of
    /// shapes that it can take.
    pub open spec fn shape(self, t: Term<A>) -> Option<Seq<int>>
        decreases t,
    {
        match t {
            Term::Tokens(ids) => Some(seq![ids.len() as int]),
            Term::Lookup(table, tokens) => match self.shape(*tokens) {
                Some(s) => if s.len() == 1 && self.is_matrix(
                    table,
                    self.rows(table),
                    self.width(table),
                ) {
                    Some(seq![s[0], self.width(table)])
                } else {
                    None
                },
                None => None,
            },
            Term::Linear(x, w) => match self.shape(*x) {
                Some(s) => if s.len() > 0 && self.is_matrix(w, self.rows(w), s.last()) {
                    Some(s.drop_last().push(self.rows(w)))
                } else {
                    None
                },
                None => None,
            },
            Term::Norm(x, n) => match self.shape(*x) {
                Some(s) => if s.len() > 0 && self.is_norm(n, s.last()) {
                    Some(s)
                } else {
                    None
                },
                None => None,
            },
            Term::PlainNorm(x, _) => self.shape(*x),
            Term::Scale(x, _) => self.shape(*x),
            Term::ScaleBy(x, a) => if size((self.weights)(a)) == 1 {
                self.shape(*x)
            } else {
                None
            },
            Term::Reshape(x, to) => match self.shape(*x) {
                Some(s) => if size(s) == size(ints(to)) {
                    Some(ints(to))
                } else {
                    None
                },
                None => None,
            },
            Term::SwapFirst(x) => match self.shape(*x) {
                Some(s) => if s.len() == 3 {
                    Some(seq![s[1], s[0], s[2]])
                } else {
                    None
                },
                None => None,
            },
            Term::SwapMiddle(x) => match self.shape(*x) {
                Some(s) => if s.len() == 4 {
                    Some(seq![s[0], s[2], s[1], s[3]])
                } else {
                    None
                },
                None => None,
            },
            Term::Batch(x) => match self.shape(*x) {
                Some(s) => Some(seq![1int] + s),
                None => None,
            },
            Term::Rope(x, dims, _, _) => match self.shape(*x) {
                Some(s) => if s.len() > 0 && s.last() == dims {
                    Some(s)
                } else {
                    None
                },
                None => None,
            },
            Term::Repeat(x, times) => match self.shape(*x) {
                Some(s) => if s.len() > 0 {
                    Some(s.update(0, s[0] * times))
                } else {
                    None
                },
                None => None,
            },
            Term::Keep(x, _, _, kv_heads, head_dim, span) => match self.shape(*x) {
                Some(s) => if s == seq![kv_heads as int, span.seq_len as int, head_dim as int] {
                    Some(seq![kv_heads as int, span.new_end as int, head_dim as int])
                } else {
                    None
                },
                None => None,
            },
            Term::Attend(q, k, v, _, mask) => match (
                self.shape(*q),
                self.shape(*k),
                self.shape(*v),
            ) {
                (Some(a), Some(b), Some(c)) => if a.len() == 4 && b.len() == 4 && c == b && a[0]
                    == b[0] && b[1] > 0 && a[1] % b[1] == 0 && a[3] == b[3] && (mask
                    == MaskKind::Absent || self.mask == seq![a[2], b[2]]) {
                    Some(a)
                } else {
                    None
                },
                _ => None,
            },
            Term::Add(a, b) => if self.shape(*a) == self.shape(*b) {
                self.shape(*a)
            } else {
                None
            },
            Term::Multiply(a, b) => if self.shape(*a) == self.shape(*b) {
                self.shape(*a)
            } else {
                None
            },
            Term::Silu(x) => self.shape(*x),
            Term::Gelu(x) => self.shape(*x),
            Term::Row(x, row) => match self.shape(*x) {
                Some(s) => if s.len() == 2 && 0 <= row < s[0] {
                    Some(seq![s[1]])
                } else {
                    None
                },
                None => None,
            },
            Term::Slot(x, index) => match self.shape(*x) {
                Some(s) => if s.len() == 3 && 0 <= index < s[1] {
                    Some(seq![s[0], s[2]])
                } else {
                    None
                },
                None => None,
            },
            Term::Softcap(x, _) => self.shape(*x),
            Term::Piece(x, at, which) => match self.shape(*x) {
                Some(s) => if s.len() > 0 && which <= at.len() {
                    let lo = cut(at, which as int, s.last());
                    let hi = cut(at, which + 1, s.last());
                    if 0 <= lo <= hi <= s.last() {
                        Some(s.drop_last().push(hi - lo))
                    } else {
                        None
                    }
                } else {
                    None
                },
                None => None,
            },
            Term::TopIndices(x, from) => match self.shape(*x) {
                Some(s) => if s.len() == 2 && 0 <= from <= s[1] {
                    Some(seq![s[0], s[1] - from])
                } else {
                    None
                },
                None => None,
            },
            Term::TakeAlong(x, indices) => match (self.shape(*x), self.shape(*indices)) {
                (Some(s), Some(i)) => if s.len() == 2 && i.len() == 2 && s[0] == i[0] {
                    Some(i)
                } else {
                    None
                },
                _ => None,
            },
            Term::Softmax(x) => self.shape(*x),
            Term::Spread(x) => match self.shape(*x) {
                Some(s) => if s.len() == 2 {
                    Some(seq![s[0], 1, 1, s[1]])
                } else {
                    None
                },
                None => None,
            },
            Term::Experts(x, w, indices) => match (self.shape(*x), self.shape(*indices)) {
                (Some(s), Some(i)) => if self.takes_experts(s, i) && self.is_experts(
                    w,
                    self.expert_rows(w),
                    s[3],
                ) {
                    Some(seq![i[0], i[1], 1, self.expert_rows(w)])
                } else {
                    None
                },
                _ => None,
            },
            Term::ExpertPair(x, _, first, second, indices) => match (
                self.shape(*x),
                self.shape(*indices),
            ) {
                (Some(s), Some(i)) => if self.takes_experts(s, i) && self.is_experts(
                    first,
                    self.expert_rows(first),
                    s[3],
                ) && self.is_experts(second, self.expert_rows(second), s[3]) {
                    Some(
                        seq![
                            i[0],
                            i[1],
                            1,
                            self.expert_rows(first) + self.expert_rows(second),
                        ],
                    )
                } else {
                    None
                },
                _ => None,
            },
            Term::DropAxis(x) => match self.shape(*x) {
                Some(s) => if s.len() == 4 && s[2] == 1 {
                    Some(seq![s[0], s[1], s[3]])
                } else {
                    None
                },
                None => None,
            },
            Term::LastAxis(x) => match self.shape(*x) {
                Some(s) => Some(s.push(1)),
                None => None,
            },
            Term::Weigh(x, by) => match (self.shape(*x), self.shape(*by)) {
                (Some(s), Some(b)) => if s.len() > 0 && b == s.drop_last().push(1) {
                    Some(s)
                } else {
                    None
                },
                _ => None,
            },
            Term::SumRows(x) => match self.shape(*x) {
                Some(s) => if s.len() == 3 {
                    Some(seq![s[0], s[2]])
                } else {
                    None
                },
                None => None,
            },
            Term::Timestep(x, bias) => match self.shape(*x) {
                Some(s) => if s.len() > 0 && (self.weights)(bias) == seq![s.last()] {
                    Some(s)
                } else {
                    None
                },
                None => None,
            },
            Term::ConvFused(x, _, mixer) => match self.shape(*x) {
                Some(s) => if self.is_conv(mixer) && mixer.conv_bias is Some && (self.weights)(
                    mixer.conv_bias.unwrap(),
                ) == seq![mixer.sizes.conv_dim as int] && s == seq![
                    mixer.sizes.conv_dim as int,
                ] {
                    Some(s)
                } else {
                    None
                },
                None => None,
            },
            Term::ConvPlain(x, _, mixer) => match self.shape(*x) {
                Some(s) => if self.is_conv(mixer) && s == seq![
                    1,
                    1,
                    mixer.sizes.conv_dim as int,
                ] {
                    Some(seq![1, mixer.sizes.conv_dim as int])
                } else {
                    None
                },
                None => None,
            },
            Term::SsmUpdate(hidden, b, c, dt, _, mixer) => match (
                self.shape(*hidden),
                self.shape(*b),
                self.shape(*c),
                self.shape(*dt),
            ) {
                (Some(h), Some(sb), Some(sc), Some(sd)) => if h == seq![
                    mixer.sizes.num_heads as int,
                    mixer.sizes.head_dim as int,
                ] && sb == seq![mixer.sizes.state_size as int] && sc == sb && sd == seq![
                    mixer.sizes.num_heads as int,
                ] && (self.weights)(mixer.a_log) == sd && size((self.weights)(mixer.d))
                    == mixer.sizes.num_heads {
                    Some(h)
                } else {
                    None
                },
                _ => None,
            },
        }
    }
}

pub(crate) proof fn lemma_size1(a: int)
    ensures
        size(seq![a]) == a,
{
    reveal_with_fuel(size, 2);
    assert(seq![a].drop_last() =~= Seq::<int>::empty());
}

pub(crate) proof fn lemma_size2(a: int, b: int)
    ensures
        size(seq![a, b]) == a * b,
{
    reveal_with_fuel(size, 3);
    assert(seq![a, b].drop_last() =~= seq![a]);
    assert(seq![a].drop_last() =~= Seq::<int>::empty());
}

pub(crate) proof fn lemma_size3(a: int, b: int, c: int)
    ensures
        size(seq![a, b, c]) == a * b * c,
{
    assert(seq![a, b, c].drop_last() =~= seq![a, b]);
    lemma_size2(a, b);
}

pub(crate) proof fn lemma_size4(a: int, b: int, c: int, d: int)
    ensures
        size(seq![a, b, c, d]) == a * b * c * d,
{
    assert(seq![a, b, c, d].drop_last() =~= seq![a, b, c]);
    lemma_size3(a, b, c);
}

pub(crate) proof fn lemma_reshape_to_heads<A>(
    s: Shaping<A>,
    t: Term<A>,
    n: i32,
    heads: i32,
    dim: i32,
)
    requires
        s.shape(t) == Some(seq![n as int, heads * dim]),
    ensures
        s.shape(t.reshape(seq![n, heads, dim])) == Some(
            seq![n as int, heads as int, dim as int],
        ),
{
    lemma_size2(n as int, heads * dim);
    lemma_size3(n as int, heads as int, dim as int);
    assert(n * (heads * dim) == n * heads * dim) by (nonlinear_arith);
    assert(ints(seq![n, heads, dim]) =~= seq![n as int, heads as int, dim as int]);
}

pub(crate) proof fn lemma_linear<A>(
    s: Shaping<A>,
    t: Term<A>,
    w: Quantized<A>,
    n: int,
    rows: int,
    width: int,
)
    requires
        s.shape(t) == Some(seq![n, width]),
        s.is_matrix(w, rows, width),
    ensures
        s.shape(t.linear(w)) == Some(seq![n, rows]),
{
    assert(seq![n, width].drop_last().push(rows) =~= seq![n, rows]);
}

pub(crate) proof fn lemma_heads_back<A>(
    s: Shaping<A>,
    t: Term<A>,
    n: i32,
    heads: i32,
    dim: i32,
    q_dim: i32,
)
    requires
        s.shape(t) == Some(seq![1int, heads as int, n as int, dim as int]),
        q_dim == heads * dim,
    ensures
        s.shape(t.swap_middle().reshape(seq![n, q_dim])) == Some(seq![n as int, q_dim as int]),
{
    let b = t.swap_middle();
    assert(s.shape(b) == Some(seq![1int, n as int, heads as int, dim as int]));
    lemma_size4(1, n as int, heads as int, dim as int);
    lemma_size2(n as int, q_dim as int);
    assert(1 * n * heads * dim == n * (heads * dim)) by (nonlinear_arith);
    assert(ints(seq![n, q_dim]) =~= seq![n as int, q_dim as int]);
}

pub(crate) proof fn lemma_batch<A>(s: Shaping<A>, t: Term<A>, a: int, b: int, c: int)
    requires
        s.shape(t) == Some(seq![a, b, c]),
    ensures
        s.shape(t.batch()) == Some(seq![1int, a, b, c]),
{
    assert(seq![1int] + seq![a, b, c] =~= seq![1int, a, b, c]);
}

/// The array of a step, from those of the steps before it.
pub(crate) proof fn lemma_step<'a, A>(g: Graph<'a, A>, i: usize)
    requires
        g.well_formed(),
        g.holds(i),
    ensures
        uses_below(g.ops@[i as int], i as nat),
        g.at(i) == denoted(g.ops@[i as int], g.terms@),
        forall|j: usize| j < i ==> #[trigger] g.at(j) == g.terms@[j as int],
{
    reveal(Graph::well_formed);
}

} // verus!
