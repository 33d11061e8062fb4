//! The list of models that the server offers.

use vstd::prelude::*;

use crate::json;
use crate::json::JsonModel;
use crate::pull;
use crate::registry;
use crate::registry::{default_catalog, role_text, EntryView, ModelEntry};
use crate::tensors;
use crate::text;
use crate::text::{chars_of, concat3, same};

verus! {

/// Whether a character is alphabetic, in Unicode's sense.
pub uninterp spec fn alphabetic(c: char) -> bool;

/// Calls `char::is_alphabetic`. The contract names the property.
#[verifier::external_body]
fn is_alphabetic(c: char) -> (r: bool)
    ensures
        r == alphabetic(c),
{
    c.is_alphabetic()
}

/// A model's directory on disk: its path, its name and its parent's name.
#[derive(Debug)]
pub struct LocalModel {
    pub path: String,
    pub leaf: String,
    pub parent: String,
}

/// A [`LocalModel`] with its texts as sequences of characters.
pub struct LocalView {
    pub path: Seq<char>,
    pub leaf: Seq<char>,
    pub parent: Seq<char>,
}

impl View for LocalModel {
    type V = LocalView;

    open spec fn view(&self) -> LocalView {
        LocalView { path: self.path@, leaf: self.leaf@, parent: self.parent@ }
    }
}

/// The views of a list of directories.
pub open spec fn local_views(dirs: Seq<LocalModel>) -> Seq<LocalView> {
    dirs.map_values(|d: LocalModel| d@)
}

/// Whether a directory's name looks like that of a repository's owner.
pub open spec fn is_owner(parent: Seq<char>) -> bool {
    &&& parent.len() > 0
    &&& parent != "models"@
    &&& exists|i: int| 0 <= i < parent.len() && alphabetic(#[trigger] parent[i])
    &&& parent[0] != '.'
}

/// The id of a model on disk: its directory's name, behind its owner's where it
/// has one.
pub open spec fn local_id(d: LocalView) -> Seq<char> {
    if is_owner(d.parent) {
        d.parent + "/"@ + d.leaf
    } else {
        d.leaf
    }
}

/// The JSON of a model of the catalog.
pub open spec fn catalog_model(e: EntryView, loaded: bool) -> JsonModel {
    JsonModel::Object(
        json::no_members().insert("id"@, JsonModel::Str(e.id)).insert(
            "object"@,
            JsonModel::Str("model"@),
        ).insert("owned_by"@, JsonModel::Str("base-mlx"@)).insert(
            "name"@,
            JsonModel::Str(e.name),
        ).insert("role"@, JsonModel::Str(registry::role_name(e.role))).insert(
            "local"@,
            JsonModel::Bool(true),
        ).insert("loaded"@, JsonModel::Bool(loaded)),
    )
}

/// The JSON of another model.
pub open spec fn local_model(id: Seq<char>, loaded: bool) -> JsonModel {
    JsonModel::Object(
        json::no_members().insert("id"@, JsonModel::Str(id)).insert(
            "object"@,
            JsonModel::Str("model"@),
        ).insert("owned_by"@, JsonModel::Str("base-mlx"@)).insert(
            "local"@,
            JsonModel::Bool(true),
        ).insert("loaded"@, JsonModel::Bool(loaded)),
    )
}

/// What has been listed: the ids, and their JSON.
pub struct Listed {
    pub ids: Seq<Seq<char>>,
    pub data: Seq<JsonModel>,
}

/// The first `n` models of the catalog are listed, those that are on disk.
/// `found` says of each where it is, if it is there.
pub open spec fn catalog_listed(
    catalog: Seq<EntryView>,
    found: Seq<Option<Seq<char>>>,
    loaded: Seq<Seq<char>>,
    n: nat,
) -> Listed
    decreases n,
{
    if n == 0 {
        Listed { ids: Seq::empty(), data: Seq::empty() }
    } else {
        let before = catalog_listed(catalog, found, loaded, (n - 1) as nat);
        let e = catalog[n - 1];
        if found[n - 1] is Some {
            Listed {
                ids: before.ids.push(e.id),
                data: before.data.push(catalog_model(e, loaded.contains(e.id))),
            }
        } else {
            before
        }
    }
}

/// Whether a directory is that of a model of the catalog, which is listed by its
/// own id.
pub open spec fn covered(
    catalog: Seq<EntryView>,
    found: Seq<Option<Seq<char>>>,
    path: Seq<char>,
    ids: Seq<Seq<char>>,
) -> bool {
    exists|i: int|
        0 <= i < catalog.len() && #[trigger] found[i] == Some(path) && ids.contains(catalog[i].id)
}

/// The first `n` directories are listed, each id once, but for those that a
/// model of the catalog stands for.
pub open spec fn all_listed(
    catalog: Seq<EntryView>,
    found: Seq<Option<Seq<char>>>,
    dirs: Seq<LocalView>,
    loaded: Seq<Seq<char>>,
    n: nat,
) -> Listed
    decreases n,
{
    if n == 0 {
        catalog_listed(catalog, found, loaded, catalog.len())
    } else {
        let before = all_listed(catalog, found, dirs, loaded, (n - 1) as nat);
        let d = dirs[n - 1];
        let id = local_id(d);
        if id.len() == 0 || before.ids.contains(id) || covered(
            catalog,
            found,
            d.path,
            before.ids,
        ) {
            before
        } else {
            Listed {
                ids: before.ids.push(id),
                data: before.data.push(local_model(id, loaded.contains(id))),
            }
        }
    }
}

/// The JSON of the whole list.
pub open spec fn list_model(
    found: Seq<Option<Seq<char>>>,
    dirs: Seq<LocalView>,
    loaded: Seq<Seq<char>>,
) -> JsonModel {
    JsonModel::Object(
        json::no_members().insert("object"@, JsonModel::Str("list"@)).insert(
            "data"@,
            JsonModel::Array(
                all_listed(registry::catalog(), found, dirs, loaded, dirs.len()).data,
            ),
        ).insert(
            "loaded"@,
            if loaded.len() > 0 {
                JsonModel::Str(loaded[0])
            } else {
                JsonModel::Null
            },
        ),
    )
}

/// What is known of where the models of the catalog are.
pub open spec fn found_views(found: Seq<Option<String>>) -> Seq<Option<Seq<char>>> {
    found.map_values(
        |f: Option<String>|
            match f {
                Some(s) => Some(s@),
                None => None::<Seq<char>>,
            },
    )
}

fn contains_text(list: &Vec<String>, s: &str) -> (r: bool)
    ensures
        r == text::views(list@).contains(s@),
{
    let ghost all = text::views(list@);
    let mut i: usize = 0;
    while i < list.len()
        invariant
            i <= list@.len(),
            all == text::views(list@),
            forall|j: int| 0 <= j < i ==> all[j] != s@,
        decreases list@.len() - i,
    {
        assert(all[i as int] == list@[i as int]@);
        if same(list[i].as_str(), s) {
            return true;
        }
        i = i + 1;
    }
    false
}

fn looks_like_owner(parent: &str) -> (r: bool)
    ensures
        r == is_owner(parent@),
{
    let chars = chars_of(parent);
    if chars.len() == 0 || same(parent, "models") || chars[0] == '.' {
        return false;
    }
    let mut i: usize = 0;
    while i < chars.len()
        invariant
            i <= chars@.len(),
            chars@ == parent@,
            chars@.len() > 0,
            parent@ != "models"@,
            parent@[0] != '.',
            forall|j: int| 0 <= j < i ==> !alphabetic(#[trigger] parent@[j]),
        decreases chars@.len() - i,
    {
        if is_alphabetic(chars[i]) {
            assert(alphabetic(parent@[i as int]));
            return true;
        }
        i = i + 1;
    }
    false
}

/// The id of a model on disk.
pub fn id_of(d: &LocalModel) -> (r: String)
    ensures
        r@ == local_id(d@),
{
    if looks_like_owner(d.parent.as_str()) {
        concat3(d.parent.as_str(), "/", d.leaf.as_str())
    } else {
        d.leaf.clone()
    }
}

fn catalog_value(e: &ModelEntry, loaded: bool) -> (r: serde_json::Value)
    ensures
        json::json_model(r) == catalog_model(e@, loaded),
{
    let mut m = json::map_new();
    json::put_text(&mut m, "id", e.id.as_str());
    json::put_text(&mut m, "object", "model");
    json::put_text(&mut m, "owned_by", "base-mlx");
    json::put_text(&mut m, "name", e.name.as_str());
    json::put_text(&mut m, "role", role_text(e.role));
    json::put(&mut m, "local", json::value_bool(true));
    json::put(&mut m, "loaded", json::value_bool(loaded));
    json::value_object(m)
}

fn local_value(id: &str, loaded: bool) -> (r: serde_json::Value)
    ensures
        json::json_model(r) == local_model(id@, loaded),
{
    let mut m = json::map_new();
    json::put_text(&mut m, "id", id);
    json::put_text(&mut m, "object", "model");
    json::put_text(&mut m, "owned_by", "base-mlx");
    json::put(&mut m, "local", json::value_bool(true));
    json::put(&mut m, "loaded", json::value_bool(loaded));
    json::value_object(m)
}

fn is_covered(
    catalog: &Vec<ModelEntry>,
    found: &Vec<Option<String>>,
    path: &str,
    ids: &Vec<String>,
) -> (r: bool)
    requires
        found@.len() == catalog@.len(),
    ensures
        r == covered(
            registry::entry_views(catalog@),
            found_views(found@),
            path@,
            text::views(ids@),
        ),
{
    let ghost entries = registry::entry_views(catalog@);
    let ghost places = found_views(found@);
    let mut i: usize = 0;
    while i < catalog.len()
        invariant
            i <= catalog@.len(),
            found@.len() == catalog@.len(),
            entries == registry::entry_views(catalog@),
            places == found_views(found@),
            forall|j: int|
                0 <= j < i ==> !(#[trigger] places[j] == Some(path@) && text::views(
                    ids@,
                ).contains(entries[j].id)),
        decreases catalog@.len() - i,
    {
        assert(entries[i as int] == catalog@[i as int]@);
        let here = match &found[i] {
            Some(p) => same(p.as_str(), path),
            None => false,
        };
        assert(here == (places[i as int] == Some(path@)));
        if here && contains_text(ids, catalog[i].id.as_str()) {
            return true;
        }
        i = i + 1;
    }
    false
}

/// Lists the models: those of the catalog that are on disk, as `found` says in
/// the catalog's order, then the others on disk; and which of them are loaded.
pub fn list_models(
    loaded: &Vec<String>,
    found: &Vec<Option<String>>,
    dirs: &Vec<LocalModel>,
) -> (r: serde_json::Value)
    requires
        found@.len() == registry::catalog().len(),
    ensures
        json::json_model(r) == list_model(
            found_views(found@),
            local_views(dirs@),
            text::views(loaded@),
        ),
{
    let catalog = default_catalog();
    let ghost entries = registry::entry_views(catalog@);
    let ghost places = found_views(found@);
    let ghost locals = local_views(dirs@);
    let ghost running = text::views(loaded@);
    assert(catalog@.len() == entries.len());
    let mut ids: Vec<String> = Vec::new();
    let mut data: Vec<serde_json::Value> = Vec::new();
    let mut i: usize = 0;
    while i < catalog.len()
        invariant
            i <= catalog@.len(),
            found@.len() == catalog@.len(),
            entries == registry::entry_views(catalog@),
            places == found_views(found@),
            running == text::views(loaded@),
            text::views(ids@) =~= catalog_listed(entries, places, running, i as nat).ids,
            json::json_models(data@) =~= catalog_listed(entries, places, running, i as nat).data,
        decreases catalog@.len() - i,
    {
        assert(entries[i as int] == catalog@[i as int]@);
        assert(places[i as int] is Some == found@[i as int] is Some);
        if found[i].is_some() {
            let is_loaded = contains_text(loaded, catalog[i].id.as_str());
            ids.push(catalog[i].id.clone());
            data.push(catalog_value(&catalog[i], is_loaded));
        }
        i = i + 1;
    }
    let mut k: usize = 0;
    while k < dirs.len()
        invariant
            k <= dirs@.len(),
            found@.len() == catalog@.len(),
            entries == registry::entry_views(catalog@),
            places == found_views(found@),
            locals == local_views(dirs@),
            running == text::views(loaded@),
            text::views(ids@) =~= all_listed(entries, places, locals, running, k as nat).ids,
            json::json_models(data@) =~= all_listed(
                entries,
                places,
                locals,
                running,
                k as nat,
            ).data,
        decreases dirs@.len() - k,
    {
        assert(locals[k as int] == dirs@[k as int]@);
        let id = id_of(&dirs[k]);
        if id.as_str().unicode_len() > 0 && !contains_text(&ids, id.as_str()) && !is_covered(
            &catalog,
            found,
            dirs[k].path.as_str(),
            &ids,
        ) {
            let is_loaded = contains_text(loaded, id.as_str());
            data.push(local_value(id.as_str(), is_loaded));
            ids.push(id);
        }
        k = k + 1;
    }
    let mut whole = json::map_new();
    json::put_text(&mut whole, "object", "list");
    json::put(&mut whole, "data", json::value_array(data));
    let first = if loaded.len() > 0 {
        json::value_string(loaded[0].clone())
    } else {
        json::value_null()
    };
    json::put(&mut whole, "loaded", first);
    json::value_object(whole)
}

proof fn lemma_catalog_listed(
    found: Seq<Option<Seq<char>>>,
    loaded: Seq<Seq<char>>,
    n: nat,
)
    requires
        n <= registry::catalog().len(),
    ensures
        ({
            let l = catalog_listed(registry::catalog(), found, loaded, n);
            &&& l.data.len() == l.ids.len()
            &&& tensors::distinct(l.ids)
            &&& forall|i: int|
                0 <= i < registry::catalog().len() ==> (l.ids.contains(
                    #[trigger] registry::catalog()[i].id,
                ) <==> i < n && found[i] is Some)
        }),
    decreases n,
{
    let catalog = registry::catalog();
    let l = catalog_listed(catalog, found, loaded, n);
    if n > 0 {
        lemma_catalog_listed(found, loaded, (n - 1) as nat);
        let before = catalog_listed(catalog, found, loaded, (n - 1) as nat);
        assert(!before.ids.contains(catalog[n - 1].id));
        assert forall|i: int| 0 <= i < catalog.len() implies (l.ids.contains(
            #[trigger] catalog[i].id,
        ) <==> i < n && found[i] is Some) by {
            if i < n - 1 {
                registry::law_catalog_ids_are_distinct(i, n - 1);
            } else if i > n - 1 {
                registry::law_catalog_ids_are_distinct(n - 1, i);
            }
            if found[n - 1] is Some {
                if before.ids.contains(catalog[i].id) {
                    let k = before.ids.index_of(catalog[i].id);
                    assert(l.ids[k] == catalog[i].id);
                }
                if l.ids.contains(catalog[i].id) {
                    let k = l.ids.index_of(catalog[i].id);
                    if k < before.ids.len() {
                        assert(before.ids[k] == catalog[i].id);
                    }
                }
                assert(l.ids[before.ids.len() as int] == catalog[n - 1].id);
            }
        }
        assert forall|x: int, y: int| 0 <= x < y < l.ids.len() implies l.ids[x] != l.ids[y] by {
            if y == before.ids.len() {
                assert(before.ids.contains(before.ids[x]));
            }
        }
    }
}

/// Ahead of the directories, a model of the catalog is listed under its id if it
/// is on disk, and only then.
pub proof fn law_catalog_models_are_listed_if_on_disk(
    found: Seq<Option<Seq<char>>>,
    loaded: Seq<Seq<char>>,
    i: int,
)
    requires
        0 <= i < registry::catalog().len(),
    ensures
        catalog_listed(
            registry::catalog(),
            found,
            loaded,
            registry::catalog().len(),
        ).ids.contains(registry::catalog()[i].id) <==> found[i] is Some,
{
    lemma_catalog_listed(found, loaded, registry::catalog().len());
}

/// No id is listed twice.
pub proof fn law_every_id_is_listed_once(
    found: Seq<Option<Seq<char>>>,
    dirs: Seq<LocalView>,
    loaded: Seq<Seq<char>>,
    n: nat,
)
    requires
        n <= dirs.len(),
    ensures
        ({
            let l = all_listed(registry::catalog(), found, dirs, loaded, n);
            l.data.len() == l.ids.len() && tensors::distinct(l.ids)
        }),
    decreases n,
{
    if n == 0 {
        lemma_catalog_listed(found, loaded, registry::catalog().len());
    } else {
        law_every_id_is_listed_once(found, dirs, loaded, (n - 1) as nat);
        let before = all_listed(registry::catalog(), found, dirs, loaded, (n - 1) as nat);
        let l = all_listed(registry::catalog(), found, dirs, loaded, n);
        assert forall|x: int, y: int| 0 <= x < y < l.ids.len() implies l.ids[x] != l.ids[y] by {
            if y == before.ids.len() {
                assert(before.ids.contains(before.ids[x]));
            }
        }
    }
}

/// Every model on disk is listed: under its own id, or under that of the model of
/// the catalog that its directory belongs to.
pub proof fn law_every_model_on_disk_is_listed(
    found: Seq<Option<Seq<char>>>,
    dirs: Seq<LocalView>,
    loaded: Seq<Seq<char>>,
    i: int,
)
    requires
        0 <= i < dirs.len(),
        local_id(dirs[i]).len() > 0,
    ensures
        ({
            let ids = all_listed(registry::catalog(), found, dirs, loaded, dirs.len()).ids;
            ids.contains(local_id(dirs[i])) || covered(
                registry::catalog(),
                found,
                dirs[i].path,
                ids,
            )
        }),
{
    lemma_listed_by(found, dirs, loaded, i, dirs.len());
}

proof fn lemma_listed_by(
    found: Seq<Option<Seq<char>>>,
    dirs: Seq<LocalView>,
    loaded: Seq<Seq<char>>,
    i: int,
    n: nat,
)
    requires
        0 <= i < n <= dirs.len(),
        local_id(dirs[i]).len() > 0,
    ensures
        ({
            let ids = all_listed(registry::catalog(), found, dirs, loaded, n).ids;
            ids.contains(local_id(dirs[i])) || covered(
                registry::catalog(),
                found,
                dirs[i].path,
                ids,
            )
        }),
    decreases n,
{
    let catalog = registry::catalog();
    let before = all_listed(catalog, found, dirs, loaded, (n - 1) as nat).ids;
    let ids = all_listed(catalog, found, dirs, loaded, n).ids;
    let id = local_id(dirs[i]);
    if i == n - 1 {
        if ids != before {
            assert(ids.last() == id);
        }
    } else {
        lemma_listed_by(found, dirs, loaded, i, (n - 1) as nat);
        assert forall|x: Seq<char>| before.contains(x) implies ids.contains(x) by {
            let k = choose|k: int| 0 <= k < before.len() && before[k] == x;
            assert(ids[k] == x);
        }
        if !before.contains(id) {
            let k = choose|k: int|
                0 <= k < catalog.len() && #[trigger] found[k] == Some(dirs[i].path)
                    && before.contains(catalog[k].id);
            assert(ids.contains(catalog[k].id));
        }
    }
}

/// A name without a slash is the name of its directory.
proof fn lemma_no_slash_is_kept(name: Seq<char>)
    requires
        !name.contains('/'),
    ensures
        pull::mangled(name) == name,
    decreases name.len(),
{
    if name.len() > 0 {
        assert(name[0] != '/');
        let rest = name.drop_first();
        assert(!rest.contains('/')) by {
            if rest.contains('/') {
                let k = choose|k: int| 0 <= k < rest.len() && rest[k] == '/';
                assert(name[k + 1] == '/');
            }
        }
        lemma_no_slash_is_kept(rest);
        assert(seq![name[0]] + rest =~= name);
    } else {
        assert(pull::mangled(name) =~= name);
    }
}

/// The id of a model on disk, handed back, leads to its directory: that is one of
/// those that are looked in. The catalog must not have another meaning for it.
pub proof fn law_listed_ids_lead_back(d: LocalView, root: pull::Root, has_home: bool)
    requires
        pull::roots(has_home).contains(root),
        !d.parent.contains('/'),
        !d.leaf.contains('/'),
        registry::repo_of(registry::catalog(), local_id(d)) is None,
    ensures
        pull::candidates(registry::resolved(local_id(d)), has_home).contains(
            pull::DirView {
                root,
                segments: if is_owner(d.parent) {
                    seq![d.parent, d.leaf]
                } else {
                    seq![d.leaf]
                },
            },
        ),
{
    let id = local_id(d);
    let c = pull::candidates(id, has_home);
    let at: int = if root == pull::Root::Cache {
        0
    } else {
        2
    };
    reveal_strlit("/");
    if is_owner(d.parent) {
        let n = d.parent.len() as int;
        assert(id[n] == '/');
        assert(forall|j: int| 0 <= j < n ==> id[j] == d.parent[j]);
        let k = pull::first_slash(id);
        if k < n {
            assert(d.parent[k] == '/');
        }
        if n < k {
            assert(id[n] != '/');
        }
        assert(id.take(n) =~= d.parent);
        assert(id.skip(n + 1) =~= d.leaf);
        assert(c[at + 1] == pull::DirView { root, segments: seq![d.parent, d.leaf] });
    } else {
        lemma_no_slash_is_kept(d.leaf);
        assert(c[at] == pull::DirView { root, segments: seq![d.leaf] });
    }
}

/// Whether an entry of the list says of a model what a client reads: its id, that it is a
/// model on this disk, and whether it is loaded.
pub open spec fn tells(entry: JsonModel, id: Seq<char>, loaded: bool) -> bool {
    &&& entry.member("id"@) == Some(JsonModel::Str(id))
    &&& entry.member("object"@) == Some(JsonModel::Str("model"@))
    &&& entry.member("local"@) == Some(JsonModel::Bool(true))
    &&& entry.member("loaded"@) == Some(JsonModel::Bool(loaded))
}

/// The names of the members of an entry differ.
proof fn lemma_member_names()
    ensures
        "id"@ != "object"@ && "id"@ != "owned_by"@ && "id"@ != "name"@ && "id"@ != "role"@ && "id"@
            != "local"@ && "id"@ != "loaded"@,
        "object"@ != "owned_by"@ && "object"@ != "name"@ && "object"@ != "role"@ && "object"@
            != "local"@ && "object"@ != "loaded"@,
        "local"@ != "loaded"@ && "name"@ != "role"@ && "name"@ != "local"@ && "name"@ != "loaded"@,
        "role"@ != "local"@ && "role"@ != "loaded"@ && "owned_by"@ != "local"@ && "owned_by"@
            != "loaded"@,
        "data"@ != "loaded"@ && "data"@ != "object"@,
{
    reveal_strlit("id");
    reveal_strlit("object");
    reveal_strlit("owned_by");
    reveal_strlit("name");
    reveal_strlit("role");
    reveal_strlit("local");
    reveal_strlit("loaded");
    reveal_strlit("data");
    assert("id"@.len() == 2 && "object"@.len() == 6 && "owned_by"@.len() == 8 && "name"@.len() == 4
        && "role"@.len() == 4 && "local"@.len() == 5 && "loaded"@.len() == 6 && "data"@.len() == 4);
    assert("object"@[0] == 'o' && "loaded"@[0] == 'l');
    assert("name"@[0] == 'n' && "role"@[0] == 'r');
}

proof fn lemma_catalog_told(found: Seq<Option<Seq<char>>>, loaded: Seq<Seq<char>>, n: nat)
    requires
        n <= registry::catalog().len(),
    ensures
        ({
            let l = catalog_listed(registry::catalog(), found, loaded, n);
            &&& l.data.len() == l.ids.len()
            &&& forall|k: int|
                0 <= k < l.ids.len() ==> tells(
                    #[trigger] l.data[k],
                    l.ids[k],
                    loaded.contains(l.ids[k]),
                ) && exists|i: int|
                    0 <= i < n && #[trigger] found[i] is Some && registry::catalog()[i].id
                        == l.ids[k]
        }),
    decreases n,
{
    lemma_member_names();
    if n > 0 {
        lemma_catalog_told(found, loaded, (n - 1) as nat);
        let before = catalog_listed(registry::catalog(), found, loaded, (n - 1) as nat);
        let l = catalog_listed(registry::catalog(), found, loaded, n);
        assert forall|k: int| 0 <= k < l.ids.len() implies tells(
            #[trigger] l.data[k],
            l.ids[k],
            loaded.contains(l.ids[k]),
        ) && exists|i: int|
            0 <= i < n && #[trigger] found[i] is Some && registry::catalog()[i].id == l.ids[k] by {
            if k < before.ids.len() {
                assert(before.data[k] == l.data[k] && before.ids[k] == l.ids[k]);
                let i = choose|i: int|
                    0 <= i < n - 1 && #[trigger] found[i] is Some && registry::catalog()[i].id
                        == before.ids[k];
                assert(found[i] is Some);
            } else {
                assert(found[n - 1] is Some);
            }
        }
    }
}

/// Whether a listed id is that of a model of the catalog that was found, or of one of the
/// first `n` directories.
pub open spec fn on_disk(
    found: Seq<Option<Seq<char>>>,
    dirs: Seq<LocalView>,
    n: nat,
    id: Seq<char>,
) -> bool {
    ||| exists|i: int|
        0 <= i < registry::catalog().len() && #[trigger] found[i] is Some
            && registry::catalog()[i].id == id
    ||| exists|i: int| 0 <= i < n && #[trigger] local_id(dirs[i]) == id
}

/// Every entry of the list tells of a model that is on disk: its id, and whether it is
/// loaded.
pub proof fn law_only_models_on_disk_are_listed(
    found: Seq<Option<Seq<char>>>,
    dirs: Seq<LocalView>,
    loaded: Seq<Seq<char>>,
    n: nat,
)
    requires
        n <= dirs.len(),
    ensures
        ({
            let l = all_listed(registry::catalog(), found, dirs, loaded, n);
            &&& l.data.len() == l.ids.len()
            &&& forall|k: int|
                0 <= k < l.ids.len() ==> tells(
                    #[trigger] l.data[k],
                    l.ids[k],
                    loaded.contains(l.ids[k]),
                ) && on_disk(found, dirs, n, l.ids[k])
        }),
    decreases n,
{
    lemma_member_names();
    if n == 0 {
        lemma_catalog_told(found, loaded, registry::catalog().len());
    } else {
        law_only_models_on_disk_are_listed(found, dirs, loaded, (n - 1) as nat);
        let before = all_listed(registry::catalog(), found, dirs, loaded, (n - 1) as nat);
        let l = all_listed(registry::catalog(), found, dirs, loaded, n);
        assert forall|k: int| 0 <= k < l.ids.len() implies tells(
            #[trigger] l.data[k],
            l.ids[k],
            loaded.contains(l.ids[k]),
        ) && on_disk(found, dirs, n, l.ids[k]) by {
            if k < before.ids.len() {
                assert(before.data[k] == l.data[k] && before.ids[k] == l.ids[k]);
                assert(on_disk(found, dirs, (n - 1) as nat, before.ids[k]));
            } else {
                assert(local_id(dirs[n - 1]) == l.ids[k]);
            }
        }
    }
}

/// The answer holds the whole list, and names the model that was loaded first, if one is.
pub proof fn law_what_is_read_of_the_list(
    found: Seq<Option<Seq<char>>>,
    dirs: Seq<LocalView>,
    loaded: Seq<Seq<char>>,
)
    ensures
        list_model(found, dirs, loaded).member("object"@) == Some(JsonModel::Str("list"@)),
        list_model(found, dirs, loaded).member("data"@) == Some(
            JsonModel::Array(
                all_listed(registry::catalog(), found, dirs, loaded, dirs.len()).data,
            ),
        ),
        loaded.len() > 0 ==> list_model(found, dirs, loaded).member("loaded"@) == Some(
            JsonModel::Str(loaded[0]),
        ),
        loaded.len() == 0 ==> list_model(found, dirs, loaded).member("loaded"@) == Some(
            JsonModel::Null,
        ),
{
    lemma_member_names();
}

} // verus!
