//! The tensors of a checkpoint, and how a model takes them out by name.
//!
//! A tensor is its shape and a handle `A` to its data; the arithmetic on the
//! data happens elsewhere.

use vstd::prelude::*;

use crate::text;
use crate::text::same;

verus! {

/// A tensor: its shape, and a handle to its data.
#[derive(Debug)]
pub struct Tensor<A> {
    pub shape: Vec<i32>,
    pub data: A,
}

/// Tensors by name.
#[derive(Debug)]
pub struct TensorMap<A> {
    names: Vec<String>,
    tensors: Vec<Tensor<A>>,
}

/// Whether no two entries are equal.
pub open spec fn distinct(names: Seq<Seq<char>>) -> bool {
    forall|i: int, j: int| 0 <= i < j < names.len() ==> names[i] != names[j]
}

/// The entries of a list of tensors, by the names at the same places.
pub open spec fn entries<A>(names: Seq<Seq<char>>, tensors: Seq<Tensor<A>>) -> Map<
    Seq<char>,
    Tensor<A>,
> {
    Map::new(|k: Seq<char>| names.contains(k), |k: Seq<char>| tensors[names.index_of(k)])
}

impl<A> View for TensorMap<A> {
    type V = Map<Seq<char>, Tensor<A>>;

    closed spec fn view(&self) -> Map<Seq<char>, Tensor<A>> {
        entries(text::views(self.names@), self.tensors@)
    }
}

proof fn lemma_entry<A>(names: Seq<Seq<char>>, tensors: Seq<Tensor<A>>, i: int)
    requires
        distinct(names),
        names.len() == tensors.len(),
        0 <= i < names.len(),
    ensures
        entries(names, tensors).contains_key(names[i]),
        entries(names, tensors)[names[i]] == tensors[i],
{
    let j = names.index_of(names[i]);
    assert(names.contains(names[i]));
    assert(0 <= j < names.len() && names[j] == names[i]);
    if i < j {
        assert(names[i] != names[j]);
    }
    if j < i {
        assert(names[j] != names[i]);
    }
}

proof fn lemma_entries_finite<A>(names: Seq<Seq<char>>, tensors: Seq<Tensor<A>>)
    requires
        distinct(names),
    ensures
        entries(names, tensors).dom().finite(),
        entries(names, tensors).dom() == names.to_set(),
        entries(names, tensors).dom().len() == names.len(),
{
    assert(entries(names, tensors).dom() =~= names.to_set());
    vstd::seq_lib::seq_to_set_is_finite(names);
    assert(names.no_duplicates());
    names.unique_seq_to_set();
}

impl<A> TensorMap<A> {
    /// Names and tensors stand side by side, and no name occurs twice.
    #[verifier::type_invariant]
    closed spec fn well_formed(self) -> bool {
        &&& self.names@.len() == self.tensors@.len()
        &&& distinct(text::views(self.names@))
    }

    /// No tensors.
    pub fn new() -> (r: Self)
        ensures
            r@ == Map::<Seq<char>, Tensor<A>>::empty(),
    {
        let r = TensorMap { names: Vec::new(), tensors: Vec::new() };
        assert(r@ =~= Map::<Seq<char>, Tensor<A>>::empty());
        r
    }

    /// How many tensors there are.
    pub fn len(&self) -> (r: usize)
        ensures
            self@.dom().finite(),
            r == self@.dom().len(),
    {
        proof {
            use_type_invariant(self);
            lemma_entries_finite(text::views(self.names@), self.tensors@);
        }
        self.names.len()
    }

    /// Where a name stands in the list.
    fn position(&self, key: &str) -> (r: Option<usize>)
        ensures
            match r {
                Some(i) => i < self.names@.len() && self.names@[i as int]@ == key@
                    && self@.contains_key(key@) && self@[key@] == self.tensors@[i as int],
                None => !self@.contains_key(key@),
            },
    {
        proof {
            use_type_invariant(self);
        }
        let ghost names = text::views(self.names@);
        let mut i: usize = 0;
        while i < self.names.len()
            invariant
                i <= self.names@.len(),
                names == text::views(self.names@),
                self.names@.len() == self.tensors@.len(),
                distinct(names),
                self@ == entries(names, self.tensors@),
                forall|j: int| 0 <= j < i ==> names[j] != key@,
            decreases self.names@.len() - i,
        {
            assert(names[i as int] == self.names@[i as int]@);
            if same(self.names[i].as_str(), key) {
                proof {
                    lemma_entry(names, self.tensors@, i as int);
                }
                return Some(i);
            }
            i = i + 1;
        }
        None
    }

    /// Puts a tensor under a name, in place of any that had it.
    pub fn insert(&mut self, key: String, tensor: Tensor<A>)
        ensures
            final(self)@ == old(self)@.insert(key@, tensor),
    {
        proof {
            use_type_invariant(&*self);
        }
        let ghost before = self@;
        let ghost old_names = text::views(self.names@);
        let ghost old_tensors = self.tensors@;
        let at = self.position(key.as_str());
        let mut whole = TensorMap::new();
        std::mem::swap(&mut whole, self);
        let TensorMap { mut names, mut tensors } = whole;
        match at {
            Some(i) => {
                tensors.set(i, tensor);
            },
            None => {
                names.push(key);
                tensors.push(tensor);
            },
        }
        proof {
            let new_names = text::views(names@);
            assert(distinct(new_names)) by {
                if at is None {
                    assert(new_names =~= old_names.push(key@));
                    assert(forall|j: int| 0 <= j < old_names.len() ==> new_names[j]
                        == old_names[j]);
                    assert forall|j: int| 0 <= j < old_names.len() implies old_names[j]
                        != key@ by {
                        assert(old_names.contains(old_names[j]));
                    }
                } else {
                    assert(new_names =~= old_names);
                }
            }
            assert(entries(new_names, tensors@) =~= before.insert(key@, tensor)) by {
                match at {
                    Some(i) => {
                        assert(new_names =~= old_names);
                        assert(old_names[i as int] == key@);
                        assert(tensors@ == old_tensors.update(i as int, tensor));
                    },
                    None => {
                        assert(new_names =~= old_names.push(key@));
                    },
                }
                lemma_inserted(old_names, old_tensors, new_names, tensors@, key@, tensor);
            }
        }
        *self = TensorMap { names, tensors };
    }

    /// Takes a tensor out.
    pub fn remove(&mut self, key: &str) -> (r: Option<Tensor<A>>)
        ensures
            match r {
                Some(t) => old(self)@.contains_key(key@) && t == old(self)@[key@] && final(self)@
                    == old(self)@.remove(key@),
                None => !old(self)@.contains_key(key@) && final(self)@ == old(self)@,
            },
    {
        proof {
            use_type_invariant(&*self);
        }
        let ghost before = self@;
        let ghost old_names = text::views(self.names@);
        let ghost old_tensors = self.tensors@;
        match self.position(key) {
            None => None,
            Some(i) => {
                let mut whole = TensorMap::new();
                std::mem::swap(&mut whole, self);
                let TensorMap { mut names, mut tensors } = whole;
                let _ = names.remove(i);
                let t = tensors.remove(i);
                proof {
                    let new_names = text::views(names@);
                    assert(new_names =~= old_names.remove(i as int));
                    lemma_removed(old_names, old_tensors, i as int);
                }
                *self = TensorMap { names, tensors };
                Some(t)
            },
        }
    }

    /// Some of the names, at most `limit`.
    pub fn some_names(&self, limit: usize) -> (r: Vec<String>)
        ensures
            some_of(text::views(r@), self@.dom(), limit as nat),
    {
        proof {
            use_type_invariant(self);
            lemma_entries_finite(text::views(self.names@), self.tensors@);
        }
        let ghost names = text::views(self.names@);
        let mut out: Vec<String> = Vec::new();
        let mut i: usize = 0;
        while i < self.names.len() && i < limit
            invariant
                i <= self.names@.len(),
                i <= limit,
                names == text::views(self.names@),
                text::views(out@) =~= names.take(i as int),
            decreases self.names@.len() - i,
        {
            out.push(self.names[i].clone());
            assert(names.take(i + 1) =~= names.take(i as int).push(names[i as int]));
            i = i + 1;
        }
        proof {
            let n = names.take(i as int);
            assert forall|j: int| 0 <= j < n.len() implies #[trigger] self@.contains_key(n[j]) by {
                assert(names.contains(names[j]));
            }
        }
        out
    }
}

/// Whether `names` are some entries of `all`, none twice: `limit` of them, or
/// all where there are fewer.
pub open spec fn some_of(names: Seq<Seq<char>>, all: Set<Seq<char>>, limit: nat) -> bool {
    &&& distinct(names)
    &&& forall|i: int| 0 <= i < names.len() ==> #[trigger] all.contains(names[i])
    &&& names.len() == if all.len() < limit {
        all.len()
    } else {
        limit
    }
}

proof fn lemma_inserted<A>(
    names: Seq<Seq<char>>,
    tensors: Seq<Tensor<A>>,
    new_names: Seq<Seq<char>>,
    new_tensors: Seq<Tensor<A>>,
    key: Seq<char>,
    tensor: Tensor<A>,
)
    requires
        distinct(names),
        distinct(new_names),
        names.len() == tensors.len(),
        ({
            ||| new_names == names.push(key) && new_tensors == tensors.push(tensor)
            ||| exists|i: int|
                0 <= i < names.len() && names[i] == key && new_names == names && new_tensors
                    == #[trigger] tensors.update(i, tensor)
        }),
    ensures
        entries(new_names, new_tensors) == entries(names, tensors).insert(key, tensor),
{
    let a = entries(new_names, new_tensors);
    let b = entries(names, tensors).insert(key, tensor);
    assert forall|k: Seq<char>| a.contains_key(k) == b.contains_key(k) by {
        if names.contains(k) {
            let j = names.index_of(k);
            assert(new_names[j] == k);
        }
        if new_names.contains(k) {
            let j = new_names.index_of(k);
            if j < names.len() {
                assert(names[j] == k);
            }
        }
        assert(new_names.contains(key)) by {
            if new_names == names.push(key) {
                assert(new_names[names.len() as int] == key);
            }
        }
    }
    assert forall|k: Seq<char>| a.contains_key(k) implies a[k] == b[k] by {
        let j = new_names.index_of(k);
        lemma_entry(new_names, new_tensors, j);
        if j < names.len() {
            lemma_entry(names, tensors, j);
        }
        if k != key {
            assert(names[j] == k);
        } else if new_names == names.push(key) && j < names.len() {
            assert(new_names[j] != new_names[names.len() as int]);
        }
    }
    assert(a =~= b);
}

proof fn lemma_removed<A>(names: Seq<Seq<char>>, tensors: Seq<Tensor<A>>, i: int)
    requires
        distinct(names),
        names.len() == tensors.len(),
        0 <= i < names.len(),
    ensures
        distinct(names.remove(i)),
        entries(names.remove(i), tensors.remove(i)) == entries(names, tensors).remove(names[i]),
{
    let n = names.remove(i);
    let t = tensors.remove(i);
    assert forall|x: int, y: int| 0 <= x < y < n.len() implies n[x] != n[y] by {
        let ox = if x < i {
            x
        } else {
            x + 1
        };
        let oy = if y < i {
            y
        } else {
            y + 1
        };
        assert(n[x] == names[ox] && n[y] == names[oy] && ox < oy);
    }
    let a = entries(n, t);
    let b = entries(names, tensors).remove(names[i]);
    assert forall|k: Seq<char>| a.contains_key(k) == b.contains_key(k) by {
        if n.contains(k) {
            let j = n.index_of(k);
            let oj = if j < i {
                j
            } else {
                j + 1
            };
            assert(names[oj] == k);
            if oj < i {
                assert(names[oj] != names[i]);
            } else {
                assert(names[i] != names[oj]);
            }
        }
        if names.contains(k) && k != names[i] {
            let oj = names.index_of(k);
            let j = if oj < i {
                oj
            } else {
                oj - 1
            };
            assert(n[j] == k);
        }
    }
    assert forall|k: Seq<char>| a.contains_key(k) implies a[k] == b[k] by {
        let j = n.index_of(k);
        let oj = if j < i {
            j
        } else {
            j + 1
        };
        assert(names[oj] == k);
        lemma_entry(n, t, j);
        lemma_entry(names, tensors, oj);
    }
    assert(a =~= b);
}

} // verus!
