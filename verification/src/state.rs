//! The models that the server holds, by id. They stay once loaded.

use vstd::hash_map::StringHashMap;
use vstd::prelude::*;

use crate::engine;
use crate::engine::{check_compatible, LoadedModel};
use crate::error::Error;
use crate::tensors;
use crate::text;

verus! {

/// The models that the server holds.
#[verifier::reject_recursive_types(M)]
pub struct AppInner<M> {
    models: StringHashMap<LoadedModel<M>>,
    ids: Vec<String>,
}

impl<M> View for AppInner<M> {
    type V = Map<Seq<char>, LoadedModel<M>>;

    closed spec fn view(&self) -> Map<Seq<char>, LoadedModel<M>> {
        self.models@
    }
}

/// What loading a model into `before` may come to: nothing where it is there,
/// else the model that `load` gave under its id.
pub open spec fn loaded_into<M, L: Fn(&str) -> Result<LoadedModel<M>, Error>>(
    before: Map<Seq<char>, LoadedModel<M>>,
    after: Map<Seq<char>, LoadedModel<M>>,
    load: L,
    id: &str,
) -> bool {
    if before.contains_key(id@) {
        after == before
    } else {
        exists|m: LoadedModel<M>|
            call_ensures(load, (id,), Ok(m)) && after == #[trigger] before.insert(id@, m)
    }
}

impl<M> AppInner<M> {
    /// The ids are those of the models, each once.
    #[verifier::type_invariant]
    closed spec fn well_formed(self) -> bool {
        &&& tensors::distinct(text::views(self.ids@))
        &&& text::views(self.ids@).to_set() == self.models@.dom()
    }

    /// No models.
    pub fn new() -> (r: Self)
        ensures
            r@ == Map::<Seq<char>, LoadedModel<M>>::empty(),
    {
        let models = StringHashMap::new();
        let ids: Vec<String> = Vec::new();
        assert(text::views(ids@).to_set() =~= models@.dom());
        AppInner { models, ids }
    }

    /// The ids of the models, each once.
    pub fn loaded_ids(&self) -> (r: &Vec<String>)
        ensures
            tensors::distinct(text::views(r@)),
            text::views(r@).to_set() == self@.dom(),
    {
        proof {
            use_type_invariant(self);
        }
        &self.ids
    }

    /// Sees to it that a model is there.
    fn ensure<L: Fn(&str) -> Result<LoadedModel<M>, Error>>(&mut self, id: &str, load: &L) -> (r:
        Result<(), Error>)
        requires
            call_requires(*load, (id,)),
        ensures
            match r {
                Ok(()) => loaded_into(old(self)@, final(self)@, *load, id)
                    && final(self)@.contains_key(id@),
                Err(e) => final(self)@ == old(self)@ && !old(self)@.contains_key(id@)
                    && call_ensures(*load, (id,), Err(e)),
            },
    {
        if self.models.contains_key(id) {
            return Ok(());
        }
        let loaded = load(id)?;
        proof {
            use_type_invariant(&*self);
        }
        let ghost before = text::views(self.ids@);
        let ghost held = self.models@;
        let mut whole = AppInner::new();
        std::mem::swap(&mut whole, self);
        let AppInner { mut models, mut ids } = whole;
        models.insert(id.to_owned(), loaded);
        ids.push(id.to_owned());
        proof {
            let after = text::views(ids@);
            assert(after =~= before.push(id@));
            assert forall|i: int| 0 <= i < before.len() implies before[i] != id@ by {
                assert(before.to_set().contains(before[i]));
            }
            assert forall|s: Seq<char>| after.to_set().contains(s) == models@.dom().contains(s) by {
                assert(before.to_set().contains(s) == held.dom().contains(s));
                if before.contains(s) {
                    let k = before.index_of(s);
                    assert(after[k] == s);
                }
                if s == id@ {
                    assert(after[before.len() as int] == s);
                }
                if after.contains(s) {
                    let k = after.index_of(s);
                    if k < before.len() {
                        assert(before[k] == s);
                        assert(before.contains(s));
                    }
                }
            }
            assert(after.to_set() =~= models@.dom());
        }
        *self = AppInner { models, ids };
        Ok(())
    }
}

/// Loads a model if it is not there, and runs `f` on it.
pub fn with_loaded<M, R, L: Fn(&str) -> Result<LoadedModel<M>, Error>, F: FnOnce(
    &LoadedModel<M>,
) -> R>(state: &mut AppInner<M>, model_id: &str, load: &L, f: F) -> (r: Result<R, Error>)
    requires
        call_requires(*load, (model_id,)),
        forall|m: &LoadedModel<M>| #[trigger] call_requires(f, (m,)),
    ensures
        match r {
            Ok(v) => loaded_into(old(state)@, final(state)@, *load, model_id)
                && final(state)@.contains_key(model_id@) && call_ensures(
                f,
                (&final(state)@[model_id@],),
                v,
            ),
            Err(e) => final(state)@ == old(state)@ && !old(state)@.contains_key(model_id@)
                && call_ensures(*load, (model_id,), Err(e)),
        },
{
    state.ensure(model_id, load)?;
    match state.models.get(model_id) {
        Some(m) => Ok(f(m)),
        None => Err(Error::Other("model is not loaded".to_owned())),
    }
}

/// Whether the models `target` and `draft` were loaded, in this order, from
/// `before` to `after`.
pub open spec fn both_loaded<M, L: Fn(&str) -> Result<LoadedModel<M>, Error>>(
    before: Map<Seq<char>, LoadedModel<M>>,
    after: Map<Seq<char>, LoadedModel<M>>,
    load: L,
    target: &str,
    draft: &str,
) -> bool {
    &&& after.contains_key(target@)
    &&& after.contains_key(draft@)
    &&& exists|mid: Map<Seq<char>, LoadedModel<M>>|
        #[trigger] loaded_into(before, mid, load, target) && loaded_into(mid, after, load, draft)
}

/// Loads a target and a draft if they are not there, and runs `f` on both, if
/// they share a vocabulary. What was loaded stays, whatever comes after.
pub fn with_target_and_draft<
    M,
    R,
    L: Fn(&str) -> Result<LoadedModel<M>, Error>,
    F: FnOnce(&LoadedModel<M>, &LoadedModel<M>) -> R,
>(state: &mut AppInner<M>, target_id: &str, draft_id: &str, load: &L, f: F) -> (r: Result<
    R,
    Error,
>)
    requires
        call_requires(*load, (target_id,)),
        call_requires(*load, (draft_id,)),
        forall|m: &LoadedModel<M>, d: &LoadedModel<M>| #[trigger] call_requires(f, (m, d)),
    ensures
        match r {
            Ok(v) => both_loaded(old(state)@, final(state)@, *load, target_id, draft_id)
                && final(state)@[target_id@].cfg.vocab_size
                == final(state)@[draft_id@].cfg.vocab_size && call_ensures(
                f,
                (&final(state)@[target_id@], &final(state)@[draft_id@]),
                v,
            ),
            Err(e) => {
                ||| final(state)@ == old(state)@ && !old(state)@.contains_key(target_id@)
                    && call_ensures(*load, (target_id,), Err(e))
                ||| loaded_into(old(state)@, final(state)@, *load, target_id)
                    && !final(state)@.contains_key(draft_id@) && call_ensures(
                    *load,
                    (draft_id,),
                    Err(e),
                )
                ||| both_loaded(old(state)@, final(state)@, *load, target_id, draft_id)
                    && final(state)@[target_id@].cfg.vocab_size
                    != final(state)@[draft_id@].cfg.vocab_size && e@ == engine::vocab_mismatch(
                    final(state)@[target_id@].cfg,
                    final(state)@[draft_id@].cfg,
                )
            },
        },
{
    state.ensure(target_id, load)?;
    let ghost mid = state@;
    assert(loaded_into(old(state)@, mid, *load, target_id));
    state.ensure(draft_id, load)?;
    assert(loaded_into(mid, state@, *load, draft_id));
    match (state.models.get(target_id), state.models.get(draft_id)) {
        (Some(target), Some(draft)) => {
            check_compatible(target, draft)?;
            Ok(f(target, draft))
        },
        _ => Err(Error::Other("model is not loaded".to_owned())),
    }
}

/// Loading a model leaves those that are there as they are, and brings that one at most:
/// under its own id, and only where there was none, what loading that id gave.
pub proof fn law_loading_leaves_the_others<M, L: Fn(&str) -> Result<LoadedModel<M>, Error>>(
    before: Map<Seq<char>, LoadedModel<M>>,
    after: Map<Seq<char>, LoadedModel<M>>,
    load: L,
    id: &str,
)
    requires
        loaded_into(before, after, load, id),
    ensures
        after.dom() == before.dom().insert(id@),
        forall|k: Seq<char>| before.contains_key(k) ==> #[trigger] after[k] == before[k],
        !before.contains_key(id@) ==> call_ensures(load, (id,), Ok(after[id@])),
{
    assert(after.dom() =~= before.dom().insert(id@));
}

/// Loading a target and a draft leaves those that are there as they are, and brings no
/// other.
pub proof fn law_loading_two_leaves_the_others<M, L: Fn(&str) -> Result<LoadedModel<M>, Error>>(
    before: Map<Seq<char>, LoadedModel<M>>,
    after: Map<Seq<char>, LoadedModel<M>>,
    load: L,
    target: &str,
    draft: &str,
)
    requires
        both_loaded(before, after, load, target, draft),
    ensures
        after.dom() == before.dom().insert(target@).insert(draft@),
        forall|k: Seq<char>| before.contains_key(k) ==> #[trigger] after[k] == before[k],
        !before.contains_key(target@) ==> call_ensures(load, (target,), Ok(after[target@])),
        !before.contains_key(draft@) && target@ != draft@ ==> call_ensures(
            load,
            (draft,),
            Ok(after[draft@]),
        ),
{
    let mid = choose|mid: Map<Seq<char>, LoadedModel<M>>| #[trigger]
        loaded_into(before, mid, load, target) && loaded_into(mid, after, load, draft);
    law_loading_leaves_the_others(before, mid, load, target);
    law_loading_leaves_the_others(mid, after, load, draft);
    assert(after.dom() =~= before.dom().insert(target@).insert(draft@));
    assert(mid.contains_key(target@));
    assert(after[target@] == mid[target@]);
}

} // verus!
