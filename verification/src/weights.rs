//! The building blocks of the models, taken out of a checkpoint's tensors.
//!
//! A model takes its tensors one after the other. What is left after each step,
//! or the error of the first step that failed, is a [`Draw`].

use vstd::prelude::*;

use crate::error::{Error, ErrorView};
use crate::float_bits::F32;
use crate::tensors;
use crate::tensors::{Tensor, TensorMap};
use crate::text;
use crate::text::{concat2, decimal_text};

verus! {

/// A quantized matrix: packed weights, with a scale and a bias for each group of
/// `group_size` values of `bits` bits.
#[derive(Debug)]
pub struct Quantized<A> {
    pub weight: A,
    pub scales: A,
    pub biases: A,
    pub group_size: i32,
    pub bits: i32,
}

/// A root-mean-square normalisation.
#[derive(Debug)]
pub struct RmsNorm<A> {
    pub weight: A,
    pub eps: F32,
}

/// The tensors that are left, or the error of the first step that failed.
pub type Draw<A> = Result<Map<Seq<char>, Tensor<A>>, ErrorView>;

/// Nothing has failed, and `m` is left.
pub open spec fn left<A>(m: Map<Seq<char>, Tensor<A>>) -> Draw<A> {
    Ok(m)
}

/// A step has failed.
pub open spec fn failed<A>(e: ErrorView) -> Draw<A> {
    Err(e)
}

/// What is left once `one` was taken for each of the first `n` layers in turn.
pub open spec fn drawn_in_turn<A>(
    r: Draw<A>,
    one: spec_fn(Draw<A>, nat) -> Draw<A>,
    n: nat,
) -> Draw<A>
    decreases n,
{
    if n == 0 {
        r
    } else {
        one(drawn_in_turn(r, one, (n - 1) as nat), (n - 1) as nat)
    }
}

/// A failure at one layer is the failure of all from there on.
pub proof fn lemma_failure_stays<A>(
    r: Draw<A>,
    one: spec_fn(Draw<A>, nat) -> Draw<A>,
    i: nat,
    n: nat,
    e: ErrorView,
)
    requires
        i <= n,
        drawn_in_turn(r, one, i) == failed::<A>(e),
        forall|k: nat| #[trigger] one(failed::<A>(e), k) == failed::<A>(e),
    ensures
        drawn_in_turn(r, one, n) == failed::<A>(e),
    decreases n,
{
    if i < n {
        lemma_failure_stays(r, one, i, (n - 1) as nat, e);
    }
}

/// The tensor `key` is taken.
pub open spec fn drawn<A>(r: Draw<A>, key: Seq<char>) -> Draw<A> {
    match r {
        Ok(m) => if m.contains_key(key) {
            Ok(m.remove(key))
        } else {
            Err(ErrorView::ModelLoad("missing tensor: "@ + key))
        },
        Err(e) => Err(e),
    }
}

/// The three tensors of a quantized matrix are taken.
pub open spec fn drawn_quantized<A>(r: Draw<A>, prefix: Seq<char>) -> Draw<A> {
    drawn(drawn(drawn(r, prefix + ".weight"@), prefix + ".scales"@), prefix + ".biases"@)
}

/// The tensor `key` is taken, where `wanted`.
pub open spec fn drawn_if<A>(wanted: bool, r: Draw<A>, key: Seq<char>) -> Draw<A> {
    if wanted {
        drawn(r, key)
    } else {
        r
    }
}

/// The three tensors of a quantized matrix are taken, where `wanted`.
pub open spec fn drawn_quantized_if<A>(wanted: bool, r: Draw<A>, prefix: Seq<char>) -> Draw<A> {
    if wanted {
        drawn_quantized(r, prefix)
    } else {
        r
    }
}

/// The draw fails on a defect, where there is one.
pub open spec fn checked<A>(r: Draw<A>, defect: Option<ErrorView>) -> Draw<A> {
    match (r, defect) {
        (Err(e), _) => Err(e),
        (Ok(_), Some(e)) => Err(e),
        (Ok(m), None) => Ok(m),
    }
}

/// How many bits hold a value, from the shapes of the packed weights and of
/// their scales: a row of weights, at 32 bits a word, holds `group_size` values
/// for each scale. Only widths that the kernels know are believed; otherwise
/// `fallback`.
pub open spec fn bits_of(
    weight: Seq<i32>,
    scales: Seq<i32>,
    fallback: i32,
    group_size: i32,
) -> i32 {
    if weight.len() == 0 || scales.len() == 0 || scales.last() <= 0 || group_size <= 0 {
        fallback
    } else {
        let packed = weight.last() * 32;
        let values = scales.last() * group_size;
        if packed == 2 * values {
            2
        } else if packed == 3 * values {
            3
        } else if packed == 4 * values {
            4
        } else if packed == 6 * values {
            6
        } else if packed == 8 * values {
            8
        } else {
            fallback
        }
    }
}

/// How many bits hold a value.
pub fn infer_bits(weight: &Vec<i32>, scales: &Vec<i32>, fallback: i32, group_size: i32) -> (r: i32)
    ensures
        r == bits_of(weight@, scales@, fallback, group_size),
{
    if weight.len() == 0 || scales.len() == 0 {
        return fallback;
    }
    let w_last = weight[weight.len() - 1];
    let s_last = scales[scales.len() - 1];
    if s_last <= 0 || group_size <= 0 {
        return fallback;
    }
    let packed: i128 = w_last as i128 * 32;
    proof {
        assert(0 < s_last * group_size <= 0x7fff_ffff * 0x7fff_ffff) by (nonlinear_arith)
            requires
                0 < s_last <= 0x7fff_ffff,
                0 < group_size <= 0x7fff_ffff,
        ;
    }
    let values: i128 = s_last as i128 * group_size as i128;
    if packed == 2 * values {
        2
    } else if packed == 3 * values {
        3
    } else if packed == 4 * values {
        4
    } else if packed == 6 * values {
        6
    } else if packed == 8 * values {
        8
    } else {
        fallback
    }
}

/// The quantized matrix `prefix` of a checkpoint, of `bits` bits.
pub open spec fn quantized_as<A>(
    m: Map<Seq<char>, Tensor<A>>,
    prefix: Seq<char>,
    bits: i32,
    group_size: i32,
) -> Quantized<A> {
    Quantized {
        weight: m[prefix + ".weight"@].data,
        scales: m[prefix + ".scales"@].data,
        biases: m[prefix + ".biases"@].data,
        group_size,
        bits,
    }
}

/// The quantized matrix `prefix` of a checkpoint, of as many bits as its shapes
/// show.
pub open spec fn quantized_of<A>(
    m: Map<Seq<char>, Tensor<A>>,
    prefix: Seq<char>,
    bits: i32,
    group_size: i32,
) -> Quantized<A> {
    quantized_as(
        m,
        prefix,
        bits_of(
            m[prefix + ".weight"@].shape@,
            m[prefix + ".scales"@].shape@,
            bits,
            group_size,
        ),
        group_size,
    )
}

/// The normalisation `key` of a checkpoint.
pub open spec fn norm_of<A>(m: Map<Seq<char>, Tensor<A>>, key: Seq<char>, eps: F32) -> RmsNorm<A> {
    RmsNorm { weight: m[key].data, eps }
}

/// Takes the tensor `key`.
pub(crate) fn take<A>(
    map: &mut TensorMap<A>,
    key: &str,
    all: Ghost<Map<Seq<char>, Tensor<A>>>,
) -> (r:
    Result<Tensor<A>, Error>)
    requires
        old(map)@.submap_of(all@),
    ensures
        final(map)@.submap_of(all@),
        match r {
            Ok(t) => drawn(left(old(map)@), key@) == left(final(map)@) && t == all@[key@],
            Err(e) => drawn(left(old(map)@), key@) == failed::<A>(e@),
        },
{
    match map.remove(key) {
        Some(t) => {
            assert(all@.contains_key(key@) && all@[key@] == old(map)@[key@]);
            Ok(t)
        },
        None => Err(Error::ModelLoad(concat2("missing tensor: ", key))),
    }
}

/// Takes the normalisation `prefix` followed by `suffix`.
pub(crate) fn rms<A>(
    map: &mut TensorMap<A>,
    prefix: &str,
    suffix: &str,
    eps: F32,
    all: Ghost<Map<Seq<char>, Tensor<A>>>,
) -> (r: Result<RmsNorm<A>, Error>)
    requires
        old(map)@.submap_of(all@),
    ensures
        final(map)@.submap_of(all@),
        match r {
            Ok(n) => drawn(left(old(map)@), prefix@ + suffix@) == left(final(map)@) && n
                == norm_of(all@, prefix@ + suffix@, eps),
            Err(e) => drawn(left(old(map)@), prefix@ + suffix@) == failed::<A>(e@),
        },
{
    let t = take(map, concat2(prefix, suffix).as_str(), all)?;
    Ok(RmsNorm { weight: t.data, eps })
}

/// Takes the three tensors of the quantized matrix `prefix`.
fn take_three<A>(
    map: &mut TensorMap<A>,
    prefix: &str,
    all: Ghost<Map<Seq<char>, Tensor<A>>>,
) -> (r: Result<(Tensor<A>, Tensor<A>, Tensor<A>), Error>)
    requires
        old(map)@.submap_of(all@),
    ensures
        final(map)@.submap_of(all@),
        match r {
            Ok(t) => drawn_quantized(left(old(map)@), prefix@) == left(final(map)@) && t.0
                == all@[prefix@ + ".weight"@] && t.1 == all@[prefix@ + ".scales"@] && t.2
                == all@[prefix@ + ".biases"@],
            Err(e) => drawn_quantized(left(old(map)@), prefix@) == failed::<A>(e@),
        },
{
    let weight = take(map, concat2(prefix, ".weight").as_str(), all)?;
    let scales = take(map, concat2(prefix, ".scales").as_str(), all)?;
    let biases = take(map, concat2(prefix, ".biases").as_str(), all)?;
    Ok((weight, scales, biases))
}

/// Takes the quantized matrix `prefix` followed by `suffix`, of `bits` bits.
pub(crate) fn qlin_as<A>(
    map: &mut TensorMap<A>,
    prefix: &str,
    suffix: &str,
    bits: i32,
    group_size: i32,
    all: Ghost<Map<Seq<char>, Tensor<A>>>,
) -> (r: Result<Quantized<A>, Error>)
    requires
        old(map)@.submap_of(all@),
    ensures
        final(map)@.submap_of(all@),
        match r {
            Ok(q) => drawn_quantized(left(old(map)@), prefix@ + suffix@) == left(final(map)@) && q
                == quantized_as(all@, prefix@ + suffix@, bits, group_size),
            Err(e) => drawn_quantized(left(old(map)@), prefix@ + suffix@) == failed::<A>(e@),
        },
{
    let (weight, scales, biases) = take_three(map, concat2(prefix, suffix).as_str(), all)?;
    Ok(
        Quantized {
            weight: weight.data,
            scales: scales.data,
            biases: biases.data,
            group_size,
            bits,
        },
    )
}

/// Takes the quantized matrix `prefix` followed by `suffix`, of as many bits as
/// its shapes show.
pub(crate) fn qlin<A>(
    map: &mut TensorMap<A>,
    prefix: &str,
    suffix: &str,
    bits: i32,
    group_size: i32,
    all: Ghost<Map<Seq<char>, Tensor<A>>>,
) -> (r: Result<Quantized<A>, Error>)
    requires
        old(map)@.submap_of(all@),
    ensures
        final(map)@.submap_of(all@),
        match r {
            Ok(q) => drawn_quantized(left(old(map)@), prefix@ + suffix@) == left(final(map)@) && q
                == quantized_of(all@, prefix@ + suffix@, bits, group_size),
            Err(e) => drawn_quantized(left(old(map)@), prefix@ + suffix@) == failed::<A>(e@),
        },
{
    let (weight, scales, biases) = take_three(map, concat2(prefix, suffix).as_str(), all)?;
    let bits = infer_bits(&weight.shape, &scales.shape, bits, group_size);
    Ok(
        Quantized {
            weight: weight.data,
            scales: scales.data,
            biases: biases.data,
            group_size,
            bits,
        },
    )
}

/// Whether `n` tensors have been taken between `before` and `after`.
pub open spec fn took<A>(before: Draw<A>, after: Draw<A>, n: int) -> bool {
    match (before, after) {
        (Ok(b), Ok(a)) => b.dom().finite() ==> a.dom().finite() && a.dom().len() == b.dom().len()
            - n,
        (Err(_), Ok(_)) => false,
        (_, Err(_)) => true,
    }
}

/// Every tensor that is taken is one less that is left.
pub proof fn law_taking_one_leaves_one_less<A>(r: Draw<A>, key: Seq<char>)
    ensures
        took(r, drawn(r, key), 1),
{
}

/// Taking a quantized matrix takes three tensors.
pub proof fn law_a_quantized_matrix_is_three_tensors<A>(r: Draw<A>, prefix: Seq<char>)
    ensures
        took(r, drawn_quantized(r, prefix), 3),
{
    let a = drawn(r, prefix + ".weight"@);
    let b = drawn(a, prefix + ".scales"@);
    law_taking_one_leaves_one_less(r, prefix + ".weight"@);
    law_taking_one_leaves_one_less(a, prefix + ".scales"@);
    law_taking_one_leaves_one_less(b, prefix + ".biases"@);
}

/// What `{:?}` shows of a list of strings.
pub uninterp spec fn debug_list(names: Seq<Seq<char>>) -> Seq<char>;

/// Calls `<Vec<String> as std::fmt::Debug>::fmt`, through `format!`. The
/// contract names what it writes.
#[verifier::external_body]
fn debug_names(names: &Vec<String>) -> (r: String)
    ensures
        r@ == debug_list(text::views(names@)),
{
    format!("{:?}", names)
}

/// Whether an error says that the tensors `rest` are left over: how many, and
/// the names of five of them.
pub open spec fn reports_leftover(e: ErrorView, rest: Set<Seq<char>>) -> bool {
    exists|names: Seq<Seq<char>>|
        #![trigger debug_list(names)]
        tensors::some_of(names, rest, 5) && e == ErrorView::ModelLoad(
            text::decimal(rest.len()) + " unmapped tensors remain (first 5: "@ + debug_list(names)
                + ")"@,
        )
}

/// Whether `e` is the error of drawing `r`: the one that it failed with, or
/// else that tensors are left over.
pub open spec fn explains<A>(e: ErrorView, r: Draw<A>) -> bool {
    match r {
        Err(x) => e == x,
        Ok(rest) => rest.dom().len() > 0 && reports_leftover(e, rest.dom()),
    }
}

/// Checks that no tensor is left over.
pub(crate) fn all_used<A>(map: &TensorMap<A>) -> (r: Result<(), Error>)
    ensures
        match r {
            Ok(()) => map@ == Map::<Seq<char>, Tensor<A>>::empty(),
            Err(e) => map@.dom().len() > 0 && reports_leftover(e@, map@.dom()),
        },
{
    let n = map.len();
    if n == 0 {
        proof {
            map@.dom().lemma_len0_is_empty();
            assert(map@ =~= Map::<Seq<char>, Tensor<A>>::empty());
        }
        return Ok(());
    }
    let names = map.some_names(5);
    let mut m = decimal_text(n as u64);
    m.append(" unmapped tensors remain (first 5: ");
    m.append(debug_names(&names).as_str());
    m.append(")");
    Err(Error::ModelLoad(m))
}

} // verus!
