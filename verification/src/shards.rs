//! The weight files of a checkpoint.

use vstd::prelude::*;

use crate::error::{Error, ErrorView};
use crate::order;
use crate::order::sort_texts;
use crate::tensors::{Tensor, TensorMap};
use crate::text;
use crate::text::{concat2, concat3, ends_with, starts_with};

verus! {

/// Whether a file holds weights: its extension is `safetensors`.
pub open spec fn is_shard(name: Seq<char>) -> bool {
    ".safetensors"@.is_suffix_of(name) && name != ".safetensors"@
}

/// Those of the names that are weight files.
pub open spec fn shards_in(names: Seq<Seq<char>>) -> Seq<Seq<char>> {
    names.filter(|n: Seq<char>| is_shard(n))
}

/// The weight files among the names of a directory, in ascending order.
pub fn shard_files(names: Vec<String>) -> (r: Vec<String>)
    ensures
        order::ascending(text::views(r@)),
        text::views(r@).to_multiset() == shards_in(text::views(names@)).to_multiset(),
{
    let ghost all = text::views(names@);
    let ghost pred = |n: Seq<char>| is_shard(n);
    let mut out: Vec<String> = Vec::new();
    let mut i: usize = 0;
    while i < names.len()
        invariant
            i <= names@.len(),
            all == text::views(names@),
            pred == (|n: Seq<char>| is_shard(n)),
            text::views(out@) =~= all.take(i as int).filter(pred),
        decreases names@.len() - i,
    {
        let ghost next = all.take(i + 1);
        assert(next.drop_last() =~= all.take(i as int));
        assert(next.last() == names@[i as int]@);
        reveal(Seq::filter);
        let name = names[i].as_str();
        if ends_with(name, ".safetensors") && !crate::text::same(name, ".safetensors") {
            out.push(names[i].clone());
        }
        i = i + 1;
    }
    assert(all.take(i as int) =~= all);
    sort_texts(out)
}

/// The weight files of a model in `dir`, in ascending order. There must be one.
pub fn model_shards(dir: &str, names: Vec<String>) -> (r: Result<Vec<String>, Error>)
    ensures
        match r {
            Ok(files) => files@.len() > 0 && order::ascending(text::views(files@)) && text::views(
                files@,
            ).to_multiset() == shards_in(text::views(names@)).to_multiset(),
            Err(e) => shards_in(text::views(names@)).len() == 0 && e@ == ErrorView::ModelLoad(
                "no .safetensors in "@ + dir@,
            ),
        },
{
    let files = shard_files(names);
    proof {
        vstd::seq_lib::to_multiset_len(text::views(files@));
        vstd::seq_lib::to_multiset_len(shards_in(text::views(names@)));
    }
    if files.len() == 0 {
        return Err(Error::ModelLoad(concat2("no .safetensors in ", dir)));
    }
    Ok(files)
}

/// The error of a weight file that cannot be read.
pub fn shard_error(path: &str, message: &str) -> (r: Error)
    ensures
        r@ == ErrorView::ModelLoad("load "@ + path@ + ": "@ + message@),
{
    let mut m = concat3("load ", path, ": ");
    m.append(message);
    Error::ModelLoad(m)
}

/// A tensor of a weight file, with its name.
#[derive(Debug)]
pub struct Named<A> {
    pub name: String,
    pub tensor: Tensor<A>,
}

/// `m` with the tensors of a weight file whose names begin with `prefix`; a
/// later tensor takes the place of an earlier one of its name.
pub open spec fn with_shard<A>(
    m: Map<Seq<char>, Tensor<A>>,
    shard: Seq<Named<A>>,
    prefix: Seq<char>,
) -> Map<Seq<char>, Tensor<A>>
    decreases shard.len(),
{
    if shard.len() == 0 {
        m
    } else {
        let before = with_shard(m, shard.drop_last(), prefix);
        if prefix.is_prefix_of(shard.last().name@) {
            before.insert(shard.last().name@, shard.last().tensor)
        } else {
            before
        }
    }
}

/// Adds the tensors of a weight file whose names begin with `prefix`.
pub fn add_shard<A>(map: &mut TensorMap<A>, shard: Vec<Named<A>>, prefix: &str)
    ensures
        final(map)@ == with_shard(old(map)@, shard@, prefix@),
{
    let ghost all = shard@;
    let ghost start = map@;
    let mut rest = shard;
    let mut reversed: Vec<Named<A>> = Vec::new();
    while rest.len() > 0
        invariant
            rest@.len() + reversed@.len() == all.len(),
            rest@ =~= all.take(rest@.len() as int),
            forall|i: int|
                0 <= i < reversed@.len() ==> reversed@[i] == #[trigger] all[all.len() - 1 - i],
        decreases rest@.len(),
    {
        match rest.pop() {
            Some(t) => reversed.push(t),
            None => {},
        }
    }
    assert(all.take(0) =~= Seq::<Named<A>>::empty());
    while reversed.len() > 0
        invariant
            reversed@.len() <= all.len(),
            map@ == with_shard(start, all.take(all.len() - reversed@.len()), prefix@),
            forall|i: int|
                0 <= i < reversed@.len() ==> reversed@[i] == #[trigger] all[all.len() - 1 - i],
        decreases reversed@.len(),
    {
        let ghost k = all.len() - reversed@.len();
        assert(all.take(k + 1).drop_last() =~= all.take(k));
        assert(reversed@[reversed@.len() - 1] == all[all.len() - 1 - (reversed@.len() - 1)]);
        match reversed.pop() {
            Some(t) => {
                assert(all.take(k + 1).last() == t);
                if starts_with(t.name.as_str(), prefix) {
                    map.insert(t.name, t.tensor);
                }
            },
            None => {},
        }
    }
    assert(all.take(all.len() as int) =~= all);
}

proof fn lemma_shard_members<A>(
    m: Map<Seq<char>, Tensor<A>>,
    shard: Seq<Named<A>>,
    prefix: Seq<char>,
    key: Seq<char>,
)
    ensures
        with_shard(m, shard, prefix).contains_key(key) <==> m.contains_key(key)
            || prefix.is_prefix_of(key) && exists|i: int|
            0 <= i < shard.len() && (#[trigger] shard[i]).name@ == key,
    decreases shard.len(),
{
    if shard.len() > 0 {
        lemma_shard_members(m, shard.drop_last(), prefix, key);
        let last = shard.len() - 1;
        if exists|i: int| 0 <= i < last && (#[trigger] shard.drop_last()[i]).name@ == key {
            let i = choose|i: int|
                0 <= i < last && (#[trigger] shard.drop_last()[i]).name@ == key;
            assert(shard[i].name@ == key);
        }
        if exists|i: int| 0 <= i < shard.len() && (#[trigger] shard[i]).name@ == key {
            let i = choose|i: int| 0 <= i < shard.len() && (#[trigger] shard[i]).name@ == key;
            if i < last {
                assert(shard.drop_last()[i].name@ == key);
            }
        }
    }
}

/// Of a weight file, the tensors whose names begin with the prefix are taken
/// over, and no others.
pub proof fn law_only_tensors_with_the_prefix_are_read<A>(
    shard: Seq<Named<A>>,
    prefix: Seq<char>,
    key: Seq<char>,
)
    ensures
        with_shard(Map::<Seq<char>, Tensor<A>>::empty(), shard, prefix).contains_key(key)
            <==> prefix.is_prefix_of(key) && exists|i: int|
            0 <= i < shard.len() && (#[trigger] shard[i]).name@ == key,
{
    lemma_shard_members(Map::<Seq<char>, Tensor<A>>::empty(), shard, prefix, key);
}

/// A weight file has a name that ends in `.safetensors` and has something before that.
pub proof fn law_names_of_weight_files(stem: Seq<char>, name: Seq<char>)
    ensures
        stem.len() > 0 ==> is_shard(stem + ".safetensors"@),
        is_shard(name) ==> exists|s: Seq<char>| s.len() > 0 && name == #[trigger] (s
            + ".safetensors"@),
{
    let end = ".safetensors"@;
    if stem.len() > 0 {
        let whole = stem + end;
        assert(end =~= whole.subrange(whole.len() - end.len(), whole.len() as int));
        assert(whole.len() != end.len());
    }
    if is_shard(name) {
        let s = name.take(name.len() - end.len());
        assert(name =~= s + end);
        if s.len() == 0 {
            assert(name =~= end);
        }
    }
}

/// Of the tensors of a weight file that have one name the last is kept, where the name
/// begins with the prefix; and where there is none, what was there before.
pub proof fn law_the_last_tensor_of_a_name_is_kept<A>(
    m: Map<Seq<char>, Tensor<A>>,
    shard: Seq<Named<A>>,
    prefix: Seq<char>,
    i: int,
    key: Seq<char>,
)
    ensures
        0 <= i < shard.len() && prefix.is_prefix_of(shard[i].name@) && (forall|j: int|
            i < j < shard.len() ==> (#[trigger] shard[j]).name@ != shard[i].name@) ==> with_shard(
            m,
            shard,
            prefix,
        )[shard[i].name@] == shard[i].tensor,
        (forall|j: int|
            0 <= j < shard.len() && prefix.is_prefix_of((#[trigger] shard[j]).name@)
                ==> shard[j].name@ != key) ==> with_shard(m, shard, prefix).contains_key(key)
            == m.contains_key(key) && with_shard(m, shard, prefix)[key] == m[key],
    decreases shard.len(),
{
    if shard.len() > 0 {
        let rest = shard.drop_last();
        law_the_last_tensor_of_a_name_is_kept(m, rest, prefix, i, key);
        let last = shard.len() - 1;
        assert forall|j: int| 0 <= j < rest.len() implies rest[j] == #[trigger] shard[j] by {}
        if 0 <= i < last && prefix.is_prefix_of(shard[i].name@) && (forall|j: int|
            i < j < shard.len() ==> (#[trigger] shard[j]).name@ != shard[i].name@) {
            assert forall|j: int| i < j < rest.len() implies (#[trigger] rest[j]).name@
                != rest[i].name@ by {
                assert(shard[j].name@ != shard[i].name@);
            }
            assert(shard[last].name@ != shard[i].name@);
        }
        if forall|j: int|
            0 <= j < shard.len() && prefix.is_prefix_of((#[trigger] shard[j]).name@)
                ==> shard[j].name@ != key {
            assert forall|j: int|
                0 <= j < rest.len() && prefix.is_prefix_of((#[trigger] rest[j]).name@) implies
                rest[j].name@ != key by {
                assert(shard[j].name@ != key);
            }
            assert(prefix.is_prefix_of(shard[last].name@) ==> shard[last].name@ != key);
        }
    }
}

/// The weight files among some names are those of the names that are of weight files.
pub proof fn law_which_names_are_weight_files(names: Seq<Seq<char>>, name: Seq<char>)
    ensures
        shards_in(names).contains(name) <==> names.contains(name) && is_shard(name),
    decreases names.len(),
{
    reveal(Seq::filter);
    if names.len() > 0 {
        let rest = names.drop_last();
        law_which_names_are_weight_files(rest, name);
        let before = shards_in(rest);
        let after = shards_in(names);
        assert(names[names.len() - 1] == names.last());
        if rest.contains(name) {
            assert(names[rest.index_of(name)] == name);
        }
        if names.contains(name) && name != names.last() {
            assert(rest[names.index_of(name)] == name);
        }
        if is_shard(names.last()) {
            assert(after =~= before.push(names.last()));
            assert(after[before.len() as int] == names.last());
            if before.contains(name) {
                assert(after[before.index_of(name)] == name);
            }
            if after.contains(name) && name != names.last() {
                assert(before[after.index_of(name)] == name);
            }
        } else {
            assert(after =~= before);
        }
    }
}

} // verus!
