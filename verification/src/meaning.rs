//! What the steps of a forward pass compute, in real numbers.
//!
//! A [`Reading`] says which numbers the weights hold and what the functions are that
//! an array library brings; the array of each step is then an array of real numbers.
//! An array is read by four places, of which the last is that of its last axis; where
//! it has fewer axes the first places are 0.

use vstd::arithmetic::div_mod::lemma_fundamental_div_mod_converse;
use vstd::prelude::*;

use crate::blocks::{activated, gated, turned, Activation, Turn};
use crate::float_bits::F32;
use crate::graph;
use crate::granite::MambaMixer;
use crate::graph::{cut, ints, Factor, Graph, MaskKind, Op, Part, RopeBase, Shaping, Term};
use crate::weights::{Quantized, RmsNorm};

verus! {

/// The sum of some numbers.
pub open spec fn sum(s: Seq<real>) -> real
    decreases s.len(),
{
    if s.len() == 0 {
        0real
    } else {
        sum(s.drop_last()) + s.last()
    }
}

/// The sum of the products of numbers at the same place.
pub open spec fn dot(a: Seq<real>, b: Seq<real>) -> real {
    sum(Seq::new(a.len(), |j: int| a[j] * b[j]))
}

/// The shares of some weights in their sum.
pub open spec fn shares(weights: Seq<real>) -> Seq<real> {
    weights.map_values(|w: real| w / sum(weights))
}

/// Which numbers the weights of a model hold, and which functions an array library
/// brings.
#[verifier::reject_recursive_types(A)]
pub struct Reading<A> {
    pub shaping: Shaping<A>,
    /// The number in a row and a column of a quantized matrix.
    pub matrix: spec_fn(Quantized<A>, int, int) -> real,
    /// The number in a row and a column of the matrix of an expert.
    pub expert: spec_fn(Quantized<A>, int, int, int) -> real,
    /// The two matrices of the experts of a layer that are laid side by side once and for
    /// all.
    pub pair: spec_fn(usize) -> (Quantized<A>, Quantized<A>),
    /// The numbers of a plain array.
    pub numbers: spec_fn(A, int) -> real,
    /// The number that a float stands for.
    pub number: spec_fn(F32) -> real,
    pub root: spec_fn(real) -> real,
    pub exp: spec_fn(real) -> real,
    pub tanh: spec_fn(real) -> real,
    pub gelu: spec_fn(real) -> real,
    /// The time step that a number stands for.
    pub timestep: spec_fn(real) -> real,
    /// A row turned for a position.
    pub turn: spec_fn(RopeBase, int, int, Seq<real>, int) -> real,
    /// What a layer's buffer held before the pass: a number of a head at a position.
    pub held: spec_fn(usize, Part, int, int, int) -> real,
    /// Whether a query sees a key.
    pub sees: spec_fn(MaskKind, int, int) -> bool,
    /// Where the numbers of a row stand that are not among its `from` smallest.
    pub order: spec_fn(Seq<real>, int, int) -> int,
    /// What the convolution of a Mamba block gives, with a bias or without, which its state
    /// decides too.
    pub conv: spec_fn(usize, MambaMixer<A>, bool, Seq<real>, int) -> real,
    /// What the recurrent update of a Mamba block gives, which its state decides too.
    pub ssm: spec_fn(
        usize,
        MambaMixer<A>,
        Seq<Seq<real>>,
        Seq<real>,
        Seq<real>,
        Seq<real>,
        int,
        int,
    ) -> real,
}

/// How long the axis before the last `k` is.
pub open spec fn axis(shape: Seq<int>, k: int) -> int {
    if k < shape.len() {
        shape[shape.len() - 1 - k]
    } else {
        1
    }
}

/// The number of a place in an array, counted row by row.
pub open spec fn flat(s: Seq<int>, a: int, b: int, c: int, d: int) -> int {
    ((a * axis(s, 2) + b) * axis(s, 1) + c) * axis(s, 0) + d
}

impl<A> Reading<A> {
    /// Whether the functions are those that their names say, as far as is asked here.
    pub open spec fn sound(self) -> bool {
        &&& forall|x: real| #[trigger] (self.exp)(x) > 0real
        &&& forall|x: real|
            x > 0real ==> #[trigger] (self.root)(x) > 0real && (self.root)(x) * (self.root)(x)
                == x
        &&& (self.number)(F32 { bits: 0x3f80_0000 }) == 1real
    }

    /// The number that arrays are multiplied by.
    pub open spec fn factor(self, by: Factor) -> real {
        match by {
            Factor::Given(f) => (self.number)(f),
            Factor::Inverse(f) => 1real / (self.number)(f),
            Factor::Sqrt(n) => (self.root)(n as real),
            Factor::InverseSqrt(n) => 1real / (self.root)(n as real),
            Factor::MinusHalfPower(n) => 1real / (self.root)(n as real),
        }
    }

    /// The sigmoid linear unit.
    pub open spec fn silu(self, x: real) -> real {
        x / (1real + (self.exp)(0real - x))
    }

    /// A number of the product of a matrix with a row.
    pub open spec fn product(self, w: Quantized<A>, row: Seq<real>, c: int) -> real {
        sum(Seq::new(row.len(), |j: int| row[j] * (self.matrix)(w, c, j)))
    }

    /// A number of the product of an expert's matrix with a row.
    pub open spec fn expert_product(
        self,
        w: Quantized<A>,
        e: int,
        row: Seq<real>,
        c: int,
    ) -> real {
        sum(Seq::new(row.len(), |j: int| row[j] * (self.expert)(w, e, c, j)))
    }

    /// A row, brought to a mean square of one.
    pub open spec fn level(self, row: Seq<real>, eps: F32, c: int) -> real {
        row[c] / (self.root)(dot(row, row) / (row.len() as real) + (self.number)(eps))
    }

    /// A row, normalised.
    pub open spec fn normed(self, n: RmsNorm<A>, row: Seq<real>, c: int) -> real {
        self.level(row, n.eps, c) * (self.numbers)(n.weight, c)
    }

    /// What a query gets of `values` by how well it fits `keys`: scaled dot-product
    /// attention.
    pub open spec fn attended(
        self,
        query: Seq<real>,
        keys: Seq<Seq<real>>,
        values: Seq<Seq<real>>,
        scale: real,
        seen: Seq<bool>,
        c: int,
    ) -> real {
        let fit = Seq::new(
            keys.len(),
            |j: int|
                if seen[j] {
                    (self.exp)(scale * dot(query, keys[j]))
                } else {
                    0real
                },
        );
        sum(Seq::new(keys.len(), |j: int| shares(fit)[j] * values[j][c]))
    }

    /// The tokens of an array of tokens.
    pub open spec fn ids(self, t: Term<A>) -> Seq<i32> {
        match t {
            Term::Tokens(ids) => ids,
            _ => Seq::empty(),
        }
    }

    /// The shape of an array.
    pub open spec fn extent(self, t: Term<A>) -> Seq<int> {
        self.shaping.shape(t)->0
    }

    /// How many numbers a row of an array has.
    pub open spec fn width(self, t: Term<A>) -> nat {
        axis(self.extent(t), 0) as nat
    }

    /// The experts that an array of places names, for a token.
    pub open spec fn places(self, t: Term<A>) -> spec_fn(int, int) -> int
        decreases t,
    {
        match t {
            Term::TopIndices(x, from) => {
                let v = self.value(*x);
                let n = self.width(*x);
                |i: int, e: int|
                    (self.order)(Seq::new(n, |j: int| v(0, 0, i, j)), from as int, from + e)
            },
            _ => |i: int, e: int| 0,
        }
    }

    /// The numbers of an array.
    pub open spec fn value(self, t: Term<A>) -> spec_fn(int, int, int, int) -> real
        decreases t,
    {
        match t {
            Term::Tokens(ids) => |a: int, b: int, c: int, d: int| ids[d] as real,
            Term::Lookup(table, tokens) => {
                let ids = self.ids(*tokens);
                |a: int, b: int, c: int, d: int| (self.matrix)(table, ids[c] as int, d)
            },
            Term::Linear(x, w) => {
                let v = self.value(*x);
                let n = self.width(*x);
                |a: int, b: int, c: int, d: int|
                    self.product(w, Seq::new(n, |j: int| v(a, b, c, j)), d)
            },
            Term::Norm(x, norm) => {
                let v = self.value(*x);
                let n = self.width(*x);
                |a: int, b: int, c: int, d: int|
                    self.normed(norm, Seq::new(n, |j: int| v(a, b, c, j)), d)
            },
            Term::PlainNorm(x, eps) => {
                let v = self.value(*x);
                let n = self.width(*x);
                |a: int, b: int, c: int, d: int|
                    self.level(Seq::new(n, |j: int| v(a, b, c, j)), eps, d)
            },
            Term::Scale(x, by) => {
                let v = self.value(*x);
                |a: int, b: int, c: int, d: int| v(a, b, c, d) * self.factor(by)
            },
            Term::ScaleBy(x, by) => {
                let v = self.value(*x);
                |a: int, b: int, c: int, d: int| v(a, b, c, d) * (self.numbers)(by, 0)
            },
            Term::Reshape(x, to) => {
                let v = self.value(*x);
                let s = self.extent(*x);
                |a: int, b: int, c: int, d: int|
                    {
                        let f = flat(ints(to), a, b, c, d);
                        v(
                            f / axis(s, 0) / axis(s, 1) / axis(s, 2),
                            (f / axis(s, 0) / axis(s, 1)) % axis(s, 2),
                            (f / axis(s, 0)) % axis(s, 1),
                            f % axis(s, 0),
                        )
                    }
            },
            Term::SwapFirst(x) => {
                let v = self.value(*x);
                |a: int, b: int, c: int, d: int| v(a, c, b, d)
            },
            Term::SwapMiddle(x) => {
                let v = self.value(*x);
                |a: int, b: int, c: int, d: int| v(a, c, b, d)
            },
            Term::Batch(x) => self.value(*x),
            Term::Rope(x, dims, base, offset) => {
                let v = self.value(*x);
                |a: int, b: int, c: int, d: int|
                    (self.turn)(
                        base,
                        dims as int,
                        offset + c,
                        Seq::new(dims as nat, |j: int| v(a, b, c, j)),
                        d,
                    )
            },
            Term::Repeat(x, times) => {
                let v = self.value(*x);
                |a: int, b: int, c: int, d: int| v(a, b / (times as int), c, d)
            },
            Term::Keep(x, layer, part, kv_heads, head_dim, span) => {
                let v = self.value(*x);
                |a: int, b: int, c: int, d: int|
                    if c < span.offset {
                        (self.held)(layer, part, b, c, d)
                    } else {
                        v(a, b, c - span.offset, d)
                    }
            },
            Term::Attend(q, k, v, scale, mask) => {
                let query = self.value(*q);
                let key = self.value(*k);
                let value = self.value(*v);
                let per = axis(self.extent(*q), 2) / axis(self.extent(*k), 2);
                let n = axis(self.extent(*k), 1) as nat;
                let dim = self.width(*q);
                |a: int, b: int, c: int, d: int|
                    self.attended(
                        Seq::new(dim, |e: int| query(a, b, c, e)),
                        Seq::new(n, |j: int| Seq::new(dim, |e: int| key(a, b / per, j, e))),
                        Seq::new(n, |j: int| Seq::new(dim, |e: int| value(a, b / per, j, e))),
                        self.factor(scale),
                        Seq::new(n, |j: int| (self.sees)(mask, c, j)),
                        d,
                    )
            },
            Term::Add(x, y) => {
                let v = self.value(*x);
                let w = self.value(*y);
                |a: int, b: int, c: int, d: int| v(a, b, c, d) + w(a, b, c, d)
            },
            Term::Multiply(x, y) => {
                let v = self.value(*x);
                let w = self.value(*y);
                |a: int, b: int, c: int, d: int| v(a, b, c, d) * w(a, b, c, d)
            },
            Term::Silu(x) => {
                let v = self.value(*x);
                |a: int, b: int, c: int, d: int| self.silu(v(a, b, c, d))
            },
            Term::Gelu(x) => {
                let v = self.value(*x);
                |a: int, b: int, c: int, d: int| (self.gelu)(v(a, b, c, d))
            },
            Term::Row(x, row) => {
                let v = self.value(*x);
                |a: int, b: int, c: int, d: int| v(0, 0, row as int, d)
            },
            Term::Slot(x, index) => {
                let v = self.value(*x);
                |a: int, b: int, c: int, d: int| v(0, c, index as int, d)
            },
            Term::Softcap(x, cap) => {
                let v = self.value(*x);
                |a: int, b: int, c: int, d: int|
                    (self.number)(cap) * (self.tanh)(v(a, b, c, d) / (self.number)(cap))
            },
            Term::Piece(x, at, which) => {
                let v = self.value(*x);
                let from = cut(at, which as int, self.width(*x) as int);
                |a: int, b: int, c: int, d: int| v(a, b, c, from + d)
            },
            Term::TopIndices(x, from) => {
                let v = self.value(*x);
                let n = self.width(*x);
                |a: int, b: int, c: int, d: int|
                    (self.order)(Seq::new(n, |j: int| v(a, b, c, j)), from as int, from + d) as real
            },
            Term::TakeAlong(x, indices) => {
                let v = self.value(*x);
                let at = self.places(*indices);
                |a: int, b: int, c: int, d: int| v(0, 0, c, at(c, d))
            },
            Term::Softmax(x) => {
                let v = self.value(*x);
                let n = self.width(*x);
                |a: int, b: int, c: int, d: int|
                    shares(Seq::new(n, |j: int| (self.exp)(v(a, b, c, j))))[d]
            },
            Term::Spread(x) => {
                let v = self.value(*x);
                |a: int, b: int, c: int, d: int| v(0, 0, a, d)
            },
            Term::Experts(x, w, indices) => {
                let v = self.value(*x);
                let n = self.width(*x);
                let at = self.places(*indices);
                let each = axis(self.extent(*x), 2);
                |a: int, b: int, c: int, d: int|
                    self.expert_product(
                        w,
                        at(a, b),
                        Seq::new(
                            n,
                            |j: int|
                                v(
                                    a,
                                    if each == 1 {
                                        0
                                    } else {
                                        b
                                    },
                                    c,
                                    j,
                                ),
                        ),
                        d,
                    )
            },
            Term::ExpertPair(x, layer, _, _, indices) => {
                let (first, second) = (self.pair)(layer);
                let v = self.value(*x);
                let n = self.width(*x);
                let at = self.places(*indices);
                let each = axis(self.extent(*x), 2);
                let half = self.shaping.expert_rows(first);
                |a: int, b: int, c: int, d: int|
                    {
                        let row = Seq::new(
                            n,
                            |j: int|
                                v(
                                    a,
                                    if each == 1 {
                                        0
                                    } else {
                                        b
                                    },
                                    c,
                                    j,
                                ),
                        );
                        if d < half {
                            self.expert_product(first, at(a, b), row, d)
                        } else {
                            self.expert_product(second, at(a, b), row, d - half)
                        }
                    }
            },
            Term::DropAxis(x) => {
                let v = self.value(*x);
                |a: int, b: int, c: int, d: int| v(b, c, 0, d)
            },
            Term::LastAxis(x) => {
                let v = self.value(*x);
                |a: int, b: int, c: int, d: int| v(0, a, b, c)
            },
            Term::Weigh(x, by) => {
                let v = self.value(*x);
                let w = self.value(*by);
                |a: int, b: int, c: int, d: int| v(a, b, c, d) * w(a, b, c, 0)
            },
            Term::SumRows(x) => {
                let v = self.value(*x);
                let n = axis(self.extent(*x), 1) as nat;
                |a: int, b: int, c: int, d: int| sum(Seq::new(n, |e: int| v(b, c, e, d)))
            },
            Term::Timestep(x, bias) => {
                let v = self.value(*x);
                |a: int, b: int, c: int, d: int|
                    (self.timestep)(v(a, b, c, d) + (self.numbers)(bias, d))
            },
            Term::ConvFused(x, layer, mixer) => {
                let v = self.value(*x);
                let n = self.width(*x);
                |a: int, b: int, c: int, d: int|
                    (self.conv)(layer, mixer, true, Seq::new(n, |j: int| v(0, 0, 0, j)), d)
            },
            Term::ConvPlain(x, layer, mixer) => {
                let v = self.value(*x);
                let n = self.width(*x);
                |a: int, b: int, c: int, d: int|
                    (self.conv)(layer, mixer, false, Seq::new(n, |j: int| v(0, 0, 0, j)), d)
            },
            Term::SsmUpdate(hidden, x, y, dt, layer, mixer) => {
                let h = self.value(*hidden);
                let p = self.value(*x);
                let q = self.value(*y);
                let t = self.value(*dt);
                let s = self.extent(*hidden);
                let n = self.width(*x);
                |a: int, b: int, c: int, d: int|
                    (self.ssm)(
                        layer,
                        mixer,
                        Seq::new(
                            axis(s, 1) as nat,
                            |i: int| Seq::new(axis(s, 0) as nat, |j: int| h(0, 0, i, j)),
                        ),
                        Seq::new(n, |j: int| p(0, 0, 0, j)),
                        Seq::new(n, |j: int| q(0, 0, 0, j)),
                        Seq::new(axis(s, 1) as nat, |j: int| t(0, 0, 0, j)),
                        c,
                        d,
                    )
            },
        }
    }

    /// Row `i` of an array with two axes.
    pub open spec fn row(self, t: Term<A>, i: int) -> Seq<real> {
        let v = self.value(t);
        Seq::new(self.width(t), |j: int| v(0, 0, i, j))
    }
}

/// Shares are of one whole: none is negative, they sum to one, and they are to one
/// another as the weights are.
pub proof fn law_shares_are_of_one_whole(weights: Seq<real>)
    requires
        forall|j: int| 0 <= j < weights.len() ==> #[trigger] weights[j] >= 0real,
        sum(weights) > 0real,
    ensures
        shares(weights).len() == weights.len(),
        forall|j: int| 0 <= j < weights.len() ==> #[trigger] shares(weights)[j] >= 0real,
        sum(shares(weights)) == 1real,
        forall|i: int, j: int|
            0 <= i < weights.len() && 0 <= j < weights.len() ==> #[trigger] shares(weights)[i]
                * weights[j] == #[trigger] shares(weights)[j] * weights[i],
{
    let total = sum(weights);
    assert forall|j: int| 0 <= j < weights.len() implies #[trigger] shares(weights)[j] >= 0real by {
        let w = weights[j];
        assert(w / total >= 0real) by (nonlinear_arith)
            requires
                w >= 0real,
                total > 0real,
        ;
    }
    lemma_sum_divided(weights, total);
    assert(total / total == 1real) by (nonlinear_arith)
        requires
            total > 0real,
    ;
    assert forall|i: int, j: int|
        0 <= i < weights.len() && 0 <= j < weights.len() implies #[trigger] shares(weights)[i]
        * weights[j] == #[trigger] shares(weights)[j] * weights[i] by {
        let v = weights[i];
        let w = weights[j];
        assert((v / total) * w == (w / total) * v) by (nonlinear_arith)
            requires
                total > 0real,
        ;
    }
}

pub(crate) proof fn lemma_sum_divided(s: Seq<real>, by: real)
    requires
        by > 0real,
    ensures
        sum(s.map_values(|x: real| x / by)) == sum(s) / by,
    decreases s.len(),
{
    let t = s.map_values(|x: real| x / by);
    if s.len() > 0 {
        lemma_sum_divided(s.drop_last(), by);
        assert(t.drop_last() =~= s.drop_last().map_values(|x: real| x / by));
        let a = sum(s.drop_last());
        let b = s.last();
        assert((a + b) / by == a / by + b / by) by (nonlinear_arith)
            requires
                by > 0real,
        ;
    } else {
        assert(0real / by == 0real) by (nonlinear_arith)
            requires
                by > 0real,
        ;
    }
}

/// A number, taken apart by what it is a multiple of and what is left.
pub(crate) proof fn lemma_apart(x: int, d: int, q: int, r: int)
    requires
        x == q * d + r,
        0 <= r < d,
    ensures
        x / d == q,
        x % d == r,
{
    lemma_fundamental_div_mod_converse(x, d, q, r);
}

pub(crate) proof fn lemma_below(x: int, d: int)
    requires
        0 <= x < d,
    ensures
        x / d == 0,
        x % d == x,
{
    assert(x == 0 * d + x);
    lemma_apart(x, d, 0, x);
}

/// Heads share the key/value heads evenly.
pub(crate) proof fn lemma_shared_head(a: int, heads: int, kv_heads: int)
    requires
        0 <= a < heads,
        0 < kv_heads,
        heads % kv_heads == 0,
    ensures
        0 < heads / kv_heads,
        0 <= a / (heads / kv_heads) < kv_heads,
{
    let per = heads / kv_heads;
    assert(heads == kv_heads * per) by (nonlinear_arith)
        requires
            0 < kv_heads,
            heads % kv_heads == 0,
            per == heads / kv_heads,
    ;
    assert(0 < per) by (nonlinear_arith)
        requires
            heads == kv_heads * per,
            0 < heads,
            0 < kv_heads,
    ;
    assert(0 <= a / per < kv_heads) by (nonlinear_arith)
        requires
            0 <= a < heads,
            heads == kv_heads * per,
            0 < per,
    ;
}

/// Rows cut into heads: number `d` of head `h` stands in place `h * dim + d` of the row.
pub(crate) proof fn lemma_cut_into_heads<A>(
    r: Reading<A>,
    t: Term<A>,
    n: i32,
    heads: i32,
    dim: i32,
    i: int,
    h: int,
    d: int,
)
    requires
        r.shaping.shape(t) == Some(seq![n as int, heads * dim]),
        0 <= i < n,
        0 <= h < heads,
        0 <= d < dim,
    ensures
        r.value(t.reshape(seq![n, heads, dim]))(0, i, h, d) == r.value(t)(0, 0, i, h * dim + d),
{
    let to = ints(seq![n, heads, dim]);
    assert(to =~= seq![n as int, heads as int, dim as int]);
    let f = flat(to, 0, i, h, d);
    let w = heads * dim;
    let s = r.extent(t);
    assert(axis(s, 0) == w && axis(s, 1) == n && axis(s, 2) == 1);
    assert(axis(to, 0) == dim && axis(to, 1) == heads && axis(to, 2) == n);
    assert(f == i * w + (h * dim + d)) by (nonlinear_arith)
        requires
            f == ((0 * n + i) * heads + h) * dim + d,
            w == heads * dim,
    ;
    assert(0 <= h * dim + d < w) by (nonlinear_arith)
        requires
            0 <= h < heads,
            0 <= d < dim,
            w == heads * dim,
    ;
    lemma_apart(f, w, i, h * dim + d);
    lemma_below(i, n as int);
}

/// Heads laid side by side again: place `m` of a row is number `m % dim` of head
/// `m / dim`.
pub(crate) proof fn lemma_heads_side_by_side<A>(
    r: Reading<A>,
    t: Term<A>,
    n: i32,
    heads: i32,
    dim: i32,
    q_dim: i32,
    i: int,
    m: int,
)
    requires
        r.shaping.shape(t) == Some(seq![1int, heads as int, n as int, dim as int]),
        q_dim == heads * dim,
        0 < dim,
        0 < heads,
        0 <= i < n,
        0 <= m < q_dim,
    ensures
        r.value(t.swap_middle().reshape(seq![n, q_dim]))(0, 0, i, m) == r.value(t)(
            0,
            m / (dim as int),
            i,
            m % (dim as int),
        ),
        0 <= m / (dim as int) < heads,
        0 <= m % (dim as int) < dim,
{
    let u = t.swap_middle();
    let s = r.extent(u);
    assert(r.shaping.shape(u) == Some(seq![1int, n as int, heads as int, dim as int]));
    let to = ints(seq![n, q_dim]);
    assert(to =~= seq![n as int, q_dim as int]);
    let f = flat(to, 0, 0, i, m);
    let h = m / (dim as int);
    let d = m % (dim as int);
    assert(axis(s, 0) == dim && axis(s, 1) == heads && axis(s, 2) == n);
    assert(axis(to, 0) == q_dim && axis(to, 1) == n && axis(to, 2) == 1);
    assert(m == h * dim + d && 0 <= d < dim && 0 <= h < heads) by (nonlinear_arith)
        requires
            0 < dim,
            0 < heads,
            h == m / (dim as int),
            d == m % (dim as int),
            0 <= m < heads * dim,
    ;
    assert(f == (i * heads + h) * dim + d) by (nonlinear_arith)
        requires
            f == ((0 * 1 + 0) * n + i) * q_dim + m,
            q_dim == heads * dim,
            m == h * dim + d,
    ;
    assert(r.value(u)(0, i, h, d) == r.value(t)(0, h, i, d));
    lemma_apart(f, dim as int, i * heads + h, d);
    lemma_apart(i * heads + h, heads as int, i, h);
    lemma_below(i, n as int);
}

impl<A> Reading<A> {
    /// Number `d` of head `h` of a row that is projected, and cut into heads of `dim`
    /// numbers.
    pub open spec fn head(self, w: Quantized<A>, row: Seq<real>, dim: int, h: int, d: int) -> real {
        self.product(w, row, h * dim + d)
    }

    /// Head `h` of a row that is projected.
    pub open spec fn headed(self, w: Quantized<A>, row: Seq<real>, dim: int, h: int) -> Seq<real> {
        Seq::new(dim as nat, |d: int| self.head(w, row, dim, h, d))
    }

    /// Head `h` of a row that is projected, normalised on its own, and turned for a
    /// position.
    pub open spec fn turned_head(
        self,
        w: Quantized<A>,
        norm: RmsNorm<A>,
        base: RopeBase,
        row: Seq<real>,
        dim: int,
        h: int,
        position: int,
    ) -> Seq<real> {
        let head = self.headed(w, row, dim, h);
        let level = Seq::new(dim as nat, |d: int| self.normed(norm, head, d));
        Seq::new(dim as nat, |d: int| (self.turn)(base, dim, position, level, d))
    }

    /// A row, normalised.
    pub open spec fn normed_row(self, norm: RmsNorm<A>, row: Seq<real>) -> Seq<real> {
        Seq::new(row.len(), |c: int| self.normed(norm, row, c))
    }

    /// What a feed-forward network gives: of each inner number the activated gate times
    /// the projection, projected back.
    pub open spec fn fed_forward(
        self,
        by: Activation,
        gate: Quantized<A>,
        up: Quantized<A>,
        down: Quantized<A>,
        inner: int,
        row: Seq<real>,
        c: int,
    ) -> real {
        self.product(
            down,
            Seq::new(
                inner as nat,
                |m: int|
                    (match by {
                        Activation::Silu => self.silu(self.product(gate, row, m)),
                        Activation::Gelu => (self.gelu)(self.product(gate, row, m)),
                    }) * self.product(up, row, m),
            ),
            c,
        )
    }
}

/// The queries or keys of a head are what the projection gives, normalised head by head
/// and turned by their positions.
pub proof fn law_heads_are_turned<A>(
    r: Reading<A>,
    h: Term<A>,
    w: Quantized<A>,
    norm: RmsNorm<A>,
    t: Turn,
    hidden: int,
    i: int,
    head: int,
)
    requires
        r.shaping.shape(h) == Some(seq![t.seq_len as int, hidden]),
        r.shaping.is_matrix(w, t.heads * t.dim, hidden),
        r.shaping.is_norm(norm, t.dim as int),
        0 <= hidden,
        0 <= t.dim,
        0 <= i < t.seq_len,
        0 <= head < t.heads,
    ensures
        forall|d: int|
            0 <= d < t.dim ==> #[trigger] r.value(turned(h, w, norm, t))(0, head, i, d)
                == r.turned_head(
                w,
                norm,
                t.base,
                r.row(h, i),
                t.dim as int,
                head,
                t.offset + i,
            )[d],
{
    let s = r.shaping;
    let a = h.linear(w);
    graph::lemma_linear(s, h, w, t.seq_len as int, t.heads * t.dim, hidden);
    graph::lemma_reshape_to_heads(s, a, t.seq_len, t.heads, t.dim);
    let b = a.reshape(seq![t.seq_len, t.heads, t.dim]);
    let c = b.norm(norm);
    let row = r.row(h, i);
    let v = r.value(h);
    assert(row =~= Seq::new(hidden as nat, |j: int| v(0, 0, i, j)));
    let want = r.headed(w, row, t.dim as int, head);
    let vb = r.value(b);
    let got = Seq::new(t.dim as nat, |j: int| vb(0, i, head, j));
    assert(got =~= want) by {
        assert forall|d: int| 0 <= d < t.dim implies #[trigger] got[d] == want[d] by {
            lemma_cut_into_heads(r, a, t.seq_len, t.heads, t.dim, i, head, d);
        }
    }
    let vc = r.value(c);
    let level = Seq::new(t.dim as nat, |d: int| r.normed(norm, want, d));
    assert(Seq::new(t.dim as nat, |j: int| vc(0, i, head, j)) =~= level);
    let e = c.swap_first();
    let ve = r.value(e);
    assert(Seq::new(t.dim as nat, |j: int| ve(0, head, i, j)) =~= level);
}

/// The values of a head are what the projection gives in the places of that head.
pub proof fn law_heads_are_projected<A>(
    r: Reading<A>,
    h: Term<A>,
    w: Quantized<A>,
    n: i32,
    heads: i32,
    dim: i32,
    hidden: int,
    i: int,
    head: int,
)
    requires
        r.shaping.shape(h) == Some(seq![n as int, hidden]),
        r.shaping.is_matrix(w, heads * dim, hidden),
        0 <= hidden,
        0 <= dim,
        0 <= i < n,
        0 <= head < heads,
    ensures
        r.at_head(
            h.linear(w).reshape(seq![n, heads, dim]).swap_first(),
            head,
            i,
            dim as int,
        ) == r.headed(w, r.row(h, i), dim as int, head),
{
    let a = h.linear(w);
    graph::lemma_linear(r.shaping, h, w, n as int, heads * dim, hidden);
    let b = a.reshape(seq![n, heads, dim]);
    let got = r.at_head(b.swap_first(), head, i, dim as int);
    let want = r.headed(w, r.row(h, i), dim as int, head);
    let v = r.value(h);
    assert(r.row(h, i) =~= Seq::new(hidden as nat, |j: int| v(0, 0, i, j)));
    assert forall|d: int| 0 <= d < dim implies #[trigger] got[d] == want[d] by {
        lemma_cut_into_heads(r, a, n, heads, dim, i, head, d);
        assert(r.value(b.swap_first())(0, head, i, d) == r.value(b)(0, i, head, d));
    }
    assert(got =~= want);
}

/// What a gated feed-forward network gives for a row.
pub proof fn law_feed_forward<A>(
    r: Reading<A>,
    h: Term<A>,
    by: Activation,
    gate: Quantized<A>,
    up: Quantized<A>,
    down: Quantized<A>,
    n: int,
    hidden: int,
    inner: int,
    i: int,
    c: int,
)
    requires
        r.shaping.shape(h) == Some(seq![n, hidden]),
        r.shaping.is_matrix(gate, inner, hidden),
        r.shaping.is_matrix(up, inner, hidden),
        r.shaping.is_matrix(down, hidden, inner),
        0 <= inner,
        0 <= i < n,
        0 <= c < hidden,
    ensures
        r.value(gated(h, by, gate, up, down))(0, 0, i, c) == r.fed_forward(
            by,
            gate,
            up,
            down,
            inner,
            r.row(h, i),
            c,
        ),
{
    let s = r.shaping;
    graph::lemma_linear(s, h, gate, n, inner, hidden);
    graph::lemma_linear(s, h, up, n, inner, hidden);
    let opened = activated(h.linear(gate), by);
    assert(s.shape(opened) == Some(seq![n, inner]));
    let both = opened.times(h.linear(up));
    assert(s.shape(both) == Some(seq![n, inner]));
    let v = r.value(h);
    let row = r.row(h, i);
    assert(row =~= Seq::new(hidden as nat, |j: int| v(0, 0, i, j)));
    let vb = r.value(both);
    let want = Seq::new(
        inner as nat,
        |m: int|
            (match by {
                Activation::Silu => r.silu(r.product(gate, row, m)),
                Activation::Gelu => (r.gelu)(r.product(gate, row, m)),
            }) * r.product(up, row, m),
    );
    let got = Seq::new(inner as nat, |j: int| vb(0, 0, i, j));
    assert forall|m: int| 0 <= m < inner implies #[trigger] got[m] == want[m] by {
        assert(r.value(h.linear(gate))(0, 0, i, m) == r.product(gate, row, m));
        assert(r.value(h.linear(up))(0, 0, i, m) == r.product(up, row, m));
        assert(got[m] == r.value(opened)(0, 0, i, m) * r.value(h.linear(up))(0, 0, i, m));
    }
    assert(got =~= want);
}

impl<A> Reading<A> {
    /// The rows of an array with two axes.
    pub open spec fn rows(self, t: Term<A>) -> Seq<Seq<real>> {
        Seq::new(axis(self.extent(t), 1) as nat, |i: int| self.row(t, i))
    }

    /// What attention gives for a token: what the query of each head gets of the values
    /// of its head, by how well it fits the keys of its head; the heads side by side,
    /// projected back.
    pub open spec fn attention(
        self,
        queries: Seq<Seq<real>>,
        keys: Seq<Seq<Seq<real>>>,
        values: Seq<Seq<Seq<real>>>,
        scale: real,
        seen: Seq<bool>,
        dim: int,
        back: Quantized<A>,
        c: int,
    ) -> real {
        self.product(
            back,
            Seq::new(
                (queries.len() * dim) as nat,
                |m: int|
                    self.attended(
                        queries[m / dim],
                        keys[m / dim],
                        values[m / dim],
                        scale,
                        seen,
                        m % dim,
                    ),
            ),
            c,
        )
    }

    /// What a mask lets the query of a token see.
    pub open spec fn seen(self, mask: MaskKind, i: int, keys: int) -> Seq<bool> {
        Seq::new(keys as nat, |j: int| (self.sees)(mask, i, j))
    }

    /// Position `j` of head `g`, as a layer's buffer held it before the pass.
    pub open spec fn held_head(self, layer: usize, part: Part, g: int, j: int, dim: int) -> Seq<
        real,
    > {
        Seq::new(dim as nat, |d: int| (self.held)(layer, part, g, j, d))
    }

    /// The numbers of a head at a place of an array with three axes.
    pub open spec fn at_head(self, t: Term<A>, h: int, i: int, dim: int) -> Seq<real> {
        let v = self.value(t);
        Seq::new(dim as nat, |d: int| v(0, h, i, d))
    }
}

/// What attention over some queries, keys and values gives for a token: each query is
/// compared with the keys, and takes its shares of the values.
pub proof fn law_attention<A>(
    r: Reading<A>,
    q: Term<A>,
    k: Term<A>,
    v: Term<A>,
    scale: Factor,
    mask: MaskKind,
    n: i32,
    heads: i32,
    kv_heads: int,
    keys: int,
    dim: i32,
    q_dim: i32,
    back: Quantized<A>,
    hidden: int,
    i: int,
    c: int,
)
    requires
        r.shaping.shape(q) == Some(seq![heads as int, n as int, dim as int]),
        r.shaping.shape(k) == Some(seq![kv_heads, keys, dim as int]),
        r.shaping.shape(v) == Some(seq![kv_heads, keys, dim as int]),
        mask == MaskKind::Absent || r.shaping.mask == seq![n as int, keys],
        0 < kv_heads,
        heads as int % kv_heads == 0,
        0 < heads,
        0 < dim,
        0 <= keys,
        q_dim == heads * dim,
        r.shaping.is_matrix(back, hidden, heads * dim),
        0 <= i < n,
    ensures
        r.value(
            q.batch().attend(k.batch(), v.batch(), scale, mask).swap_middle().reshape(
                seq![n, q_dim],
            ).linear(back),
        )(0, 0, i, c) == r.attention(
            Seq::new(heads as nat, |h: int| r.at_head(q, h, i, dim as int)),
            Seq::new(
                heads as nat,
                |h: int|
                    Seq::new(
                        keys as nat,
                        |j: int| r.at_head(k, h / (heads as int / kv_heads), j, dim as int),
                    ),
            ),
            Seq::new(
                heads as nat,
                |h: int|
                    Seq::new(
                        keys as nat,
                        |j: int| r.at_head(v, h / (heads as int / kv_heads), j, dim as int),
                    ),
            ),
            r.factor(scale),
            r.seen(mask, i, keys),
            dim as int,
            back,
            c,
        ),
{
    let s = r.shaping;
    graph::lemma_batch(s, q, heads as int, n as int, dim as int);
    graph::lemma_batch(s, k, kv_heads, keys, dim as int);
    graph::lemma_batch(s, v, kv_heads, keys, dim as int);
    let qb = q.batch();
    let kb = k.batch();
    let vb = v.batch();
    let a = qb.attend(kb, vb, scale, mask);
    assert(s.shape(a) == Some(seq![1int, heads as int, n as int, dim as int]));
    graph::lemma_heads_back(s, a, n, heads, dim, q_dim);
    let back_to = a.swap_middle().reshape(seq![n, q_dim]);
    let queries = Seq::new(heads as nat, |h: int| r.at_head(q, h, i, dim as int));
    let per = heads as int / kv_heads;
    let ks = Seq::new(
        heads as nat,
        |h: int| Seq::new(keys as nat, |j: int| r.at_head(k, h / per, j, dim as int)),
    );
    let vs = Seq::new(
        heads as nat,
        |h: int| Seq::new(keys as nat, |j: int| r.at_head(v, h / per, j, dim as int)),
    );
    let seen = r.seen(mask, i, keys);
    let scaled = r.factor(scale);
    let want = Seq::new(
        (queries.len() * dim) as nat,
        |m: int|
            r.attended(
                queries[m / (dim as int)],
                ks[m / (dim as int)],
                vs[m / (dim as int)],
                scaled,
                seen,
                m % (dim as int),
            ),
    );
    let vt = r.value(back_to);
    let got = Seq::new(q_dim as nat, |j: int| vt(0, 0, i, j));
    assert(axis(r.extent(qb), 2) == heads && axis(r.extent(kb), 2) == kv_heads);
    assert(axis(r.extent(kb), 1) == keys && axis(r.extent(qb), 0) == dim);
    assert(0 <= q_dim) by (nonlinear_arith)
        requires
            q_dim == heads * dim,
            0 < heads,
            0 < dim,
    ;
    assert forall|m: int| 0 <= m < q_dim implies #[trigger] got[m] == want[m] by {
        lemma_heads_side_by_side(r, a, n, heads, dim, q_dim, i, m);
        let h = m / (dim as int);
        let vq = r.value(qb);
        let vk = r.value(kb);
        let vv = r.value(vb);
        assert(Seq::new(dim as nat, |e: int| vq(0, h, i, e)) =~= queries[h]);
        let k1 = Seq::new(keys as nat, |j: int| Seq::new(dim as nat, |e: int| vk(0, h / per, j, e)));
        let v1 = Seq::new(keys as nat, |j: int| Seq::new(dim as nat, |e: int| vv(0, h / per, j, e)));
        assert(k1 =~~= ks[h]);
        assert(v1 =~~= vs[h]);
        assert(Seq::new(keys as nat, |j: int| (r.sees)(mask, i, j)) =~= seen);
    }
    assert(got =~= want);
}

/// Attention averages: where all values that a query sees are the same, that is what it
/// gets, whatever the keys are.
pub proof fn law_attention_averages<A>(
    r: Reading<A>,
    query: Seq<real>,
    keys: Seq<Seq<real>>,
    values: Seq<Seq<real>>,
    scale: real,
    seen: Seq<bool>,
    c: int,
    same: real,
    one: int,
)
    requires
        r.sound(),
        keys.len() == values.len(),
        seen.len() == keys.len(),
        0 <= one < keys.len(),
        seen[one],
        forall|j: int| 0 <= j < keys.len() && #[trigger] seen[j] ==> values[j][c] == same,
    ensures
        r.attended(query, keys, values, scale, seen, c) == same,
{
    let fit = Seq::new(
        keys.len(),
        |j: int|
            if seen[j] {
                (r.exp)(scale * dot(query, keys[j]))
            } else {
                0real
            },
    );
    lemma_sum_positive(fit, one);
    law_shares_are_of_one_whole(fit);
    let got = Seq::new(keys.len(), |j: int| shares(fit)[j] * values[j][c]);
    let scaled = shares(fit).map_values(|x: real| x * same);
    assert forall|j: int| 0 <= j < keys.len() implies #[trigger] got[j] == scaled[j] by {
        if !seen[j] {
            let total = sum(fit);
            assert(fit[j] == 0real);
            assert(0real / total == 0real) by (nonlinear_arith)
                requires
                    total > 0real,
            ;
            let x = values[j][c];
            assert(0real * x == 0real * same) by (nonlinear_arith);
        }
    }
    assert(got =~= scaled);
    lemma_sum_scaled(shares(fit), same);
}

pub(crate) proof fn lemma_sum_positive(s: Seq<real>, one: int)
    requires
        forall|j: int| 0 <= j < s.len() ==> #[trigger] s[j] >= 0real,
        0 <= one < s.len(),
        s[one] > 0real,
    ensures
        sum(s) > 0real,
    decreases s.len(),
{
    if one == s.len() - 1 {
        lemma_sum_not_negative(s.drop_last());
    } else {
        lemma_sum_positive(s.drop_last(), one);
    }
}

pub(crate) proof fn lemma_sum_not_negative(s: Seq<real>)
    requires
        forall|j: int| 0 <= j < s.len() ==> #[trigger] s[j] >= 0real,
    ensures
        sum(s) >= 0real,
    decreases s.len(),
{
    if s.len() > 0 {
        lemma_sum_not_negative(s.drop_last());
    }
}

pub(crate) proof fn lemma_sum_scaled(s: Seq<real>, by: real)
    ensures
        sum(s.map_values(|x: real| x * by)) == sum(s) * by,
    decreases s.len(),
{
    let t = s.map_values(|x: real| x * by);
    if s.len() > 0 {
        lemma_sum_scaled(s.drop_last(), by);
        assert(t.drop_last() =~= s.drop_last().map_values(|x: real| x * by));
        let a = sum(s.drop_last());
        let b = s.last();
        assert((a + b) * by == a * by + b * by) by (nonlinear_arith);
    } else {
        assert(0real * by == 0real) by (nonlinear_arith);
    }
}

/// The numbers of a step are those that its kind says of the numbers of the steps that
/// it names: a sum is that of the two, an attention compares the first with the second and
/// averages the third, what is kept follows what the buffer held, and so on.
pub proof fn law_what_a_step_computes<'a, A>(
    r: Reading<A>,
    g: Graph<'a, A>,
    i: usize,
    a: int,
    b: int,
    c: int,
    d: int,
)
    requires
        g.well_formed(),
        g.holds(i),
    ensures
        ({
            let got = r.value(g.at(i))(a, b, c, d);
            let at = |x: usize, a: int, b: int, c: int, d: int| r.value(g.at(x))(a, b, c, d);
            let row = |x: usize, a: int, b: int, c: int|
                {
                    let v = r.value(g.at(x));
                    Seq::new(r.width(g.at(x)), |j: int| v(a, b, c, j))
                };
            match g.ops@[i as int] {
                Op::Tokens(ids) => got == ids@[d] as real,
                Op::Lookup { table, tokens } => got == (r.matrix)(
                    *table,
                    r.ids(g.at(tokens))[c] as int,
                    d,
                ),
                Op::Linear { x, w } => got == r.product(*w, row(x, a, b, c), d),
                Op::Norm { x, norm } => got == r.normed(*norm, row(x, a, b, c), d),
                Op::PlainNorm { x, eps } => got == r.level(row(x, a, b, c), eps, d),
                Op::Scale { x, by } => got == at(x, a, b, c, d) * r.factor(by),
                Op::ScaleBy { x, by } => got == at(x, a, b, c, d) * (r.numbers)(*by, 0),
                Op::Reshape { x, shape } => g.at(i) == g.at(x).reshape(shape@),
                Op::SwapFirst { x } => got == at(x, a, c, b, d),
                Op::SwapMiddle { x } => got == at(x, a, c, b, d),
                Op::Batch { x } => got == at(x, a, b, c, d),
                Op::Rope { x, dims, base, offset } => {
                    let v = r.value(g.at(x));
                    got == (r.turn)(
                        base,
                        dims as int,
                        offset + c,
                        Seq::new(dims as nat, |j: int| v(a, b, c, j)),
                        d,
                    )
                },
                Op::Repeat { x, times } => got == at(x, a, b / (times as int), c, d),
                Op::Keep { x, layer, part, kv_heads, head_dim, span } => {
                    &&& g.at(i) == g.at(x).keep(layer, part, kv_heads, head_dim, span)
                    &&& if c < span.offset {
                        got == (r.held)(layer, part, b, c, d)
                    } else {
                        got == at(x, a, b, c - span.offset, d)
                    }
                },
                Op::Attend { q, k, v, scale, mask } => {
                    let query = r.value(g.at(q));
                    let key = r.value(g.at(k));
                    let value = r.value(g.at(v));
                    let per = axis(r.extent(g.at(q)), 2) / axis(r.extent(g.at(k)), 2);
                    let n = axis(r.extent(g.at(k)), 1) as nat;
                    let dim = r.width(g.at(q));
                    got == r.attended(
                        Seq::new(dim, |e: int| query(a, b, c, e)),
                        Seq::new(n, |j: int| Seq::new(dim, |e: int| key(a, b / per, j, e))),
                        Seq::new(n, |j: int| Seq::new(dim, |e: int| value(a, b / per, j, e))),
                        r.factor(scale),
                        Seq::new(n, |j: int| (r.sees)(mask, c, j)),
                        d,
                    )
                },
                Op::Add { a: x, b: y } => got == at(x, a, b, c, d) + at(y, a, b, c, d),
                Op::Multiply { a: x, b: y } => got == at(x, a, b, c, d) * at(y, a, b, c, d),
                Op::Silu { x } => got == r.silu(at(x, a, b, c, d)),
                Op::Gelu { x } => got == (r.gelu)(at(x, a, b, c, d)),
                Op::Row { x, row } => got == at(x, 0, 0, row as int, d),
                Op::Slot { x, index } => got == at(x, 0, c, index as int, d),
                Op::Softcap { x, cap } => got == (r.number)(cap) * (r.tanh)(
                    at(x, a, b, c, d) / (r.number)(cap),
                ),
                Op::Piece { x, at: cuts, which } => got == at(
                    x,
                    a,
                    b,
                    c,
                    cut(cuts@, which as int, r.width(g.at(x)) as int) + d,
                ),
                Op::TopIndices { x, from } => got == (r.order)(
                    row(x, a, b, c),
                    from as int,
                    from + d,
                ) as real,
                Op::TakeAlong { x, indices } => got == at(x, 0, 0, c, r.places(g.at(indices))(c, d)),
                Op::Softmax { x } => {
                    let v = r.value(g.at(x));
                    got == shares(
                        Seq::new(r.width(g.at(x)), |j: int| (r.exp)(v(a, b, c, j))),
                    )[d]
                },
                Op::Spread { x } => got == at(x, 0, 0, a, d),
                Op::Experts { x, w, indices } => got == r.expert_product(
                    *w,
                    r.places(g.at(indices))(a, b),
                    row(
                        x,
                        a,
                        if axis(r.extent(g.at(x)), 2) == 1 {
                            0
                        } else {
                            b
                        },
                        c,
                    ),
                    d,
                ),
                Op::ExpertPair { x, layer, first, second, indices } => {
                    let e = r.places(g.at(indices))(a, b);
                    let taken = row(
                        x,
                        a,
                        if axis(r.extent(g.at(x)), 2) == 1 {
                            0
                        } else {
                            b
                        },
                        c,
                    );
                    let (one, two) = (r.pair)(layer);
                    let half = r.shaping.expert_rows(one);
                    &&& g.at(i) == g.at(x).expert_pair(layer, *first, *second, g.at(indices))
                    &&& if d < half {
                        got == r.expert_product(one, e, taken, d)
                    } else {
                        got == r.expert_product(two, e, taken, d - half)
                    }
                },
                Op::DropAxis { x } => got == at(x, b, c, 0, d),
                Op::LastAxis { x } => got == at(x, 0, a, b, c),
                Op::Weigh { x, by } => got == at(x, a, b, c, d) * at(by, a, b, c, 0),
                Op::SumRows { x } => {
                    let v = r.value(g.at(x));
                    got == sum(
                        Seq::new(axis(r.extent(g.at(x)), 1) as nat, |e: int| v(b, c, e, d)),
                    )
                },
                Op::Timestep { x, bias } => got == (r.timestep)(
                    at(x, a, b, c, d) + (r.numbers)(*bias, d),
                ),
                Op::ConvFused { x, layer, mixer } => got == (r.conv)(
                    layer,
                    *mixer,
                    true,
                    row(x, 0, 0, 0),
                    d,
                ),
                Op::ConvPlain { x, layer, mixer } => got == (r.conv)(
                    layer,
                    *mixer,
                    false,
                    row(x, 0, 0, 0),
                    d,
                ),
                Op::SsmUpdate { hidden, b: x, c: y, dt, layer, mixer } => g.at(i) == g.at(
                    hidden,
                ).ssm_update(g.at(x), g.at(y), g.at(dt), layer, *mixer),
            }
        }),
{
    graph::lemma_step(g, i);
    let op = g.ops@[i as int];
    match op {
        Op::Attend { q, k, v, scale, mask } => {
            assert(g.at(i) == g.at(q).attend(g.at(k), g.at(v), scale, mask));
        },
        _ => {},
    }
}

} // verus!
