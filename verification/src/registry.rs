//! The curated models.

use vstd::prelude::*;

use crate::text::{contains_char, same};

verus! {

/// What a model is for.
#[derive(Debug, Clone, Copy, PartialEq, Eq, Structural)]
pub enum ModelRole {
    Chat,
    Code,
    Embed,
    Vision,
    Rerank,
}

/// A model of the catalog.
#[derive(Debug, Clone)]
pub struct ModelEntry {
    /// The id that the API knows it by.
    pub id: String,
    /// The label shown to people.
    pub name: String,
    /// The repository that its weights come from.
    pub hf_repo: String,
    pub role: ModelRole,
    /// About how much memory it works in, in bytes.
    pub ram_estimate: u64,
}

/// A [`ModelEntry`] with its texts as sequences of characters.
pub struct EntryView {
    pub id: Seq<char>,
    pub name: Seq<char>,
    pub hf_repo: Seq<char>,
    pub role: ModelRole,
    pub ram_estimate: u64,
}

impl View for ModelEntry {
    type V = EntryView;

    open spec fn view(&self) -> EntryView {
        EntryView {
            id: self.id@,
            name: self.name@,
            hf_repo: self.hf_repo@,
            role: self.role,
            ram_estimate: self.ram_estimate,
        }
    }
}

/// The views of a list of entries.
pub open spec fn entry_views(entries: Seq<ModelEntry>) -> Seq<EntryView> {
    entries.map_values(|e: ModelEntry| e@)
}

/// The catalog: three models.
pub open spec fn catalog() -> Seq<EntryView> {
    seq![
        EntryView {
            id: "qwen3-4b-instruct"@,
            name: "Qwen 3 4B Instruct"@,
            hf_repo: "mlx-community/Qwen3-4B-Instruct-2507-4bit"@,
            role: ModelRole::Chat,
            ram_estimate: 3_000_000_000,
        },
        EntryView {
            id: "qwen3-coder-30b"@,
            name: "Qwen 3 Coder 30B MoE"@,
            hf_repo: "mlx-community/Qwen3-Coder-30B-A3B-Instruct-4bit"@,
            role: ModelRole::Code,
            ram_estimate: 18_000_000_000,
        },
        EntryView {
            id: "nomic-embed-text"@,
            name: "Nomic Embed Text v1.5"@,
            hf_repo: "mlx-community/nomic-embed-text-v1.5"@,
            role: ModelRole::Embed,
            ram_estimate: 200_000_000,
        },
    ]
}

/// The catalog.
pub fn default_catalog() -> (r: Vec<ModelEntry>)
    ensures
        entry_views(r@) == catalog(),
{
    let r = vec![
        ModelEntry {
            id: "qwen3-4b-instruct".to_owned(),
            name: "Qwen 3 4B Instruct".to_owned(),
            hf_repo: "mlx-community/Qwen3-4B-Instruct-2507-4bit".to_owned(),
            role: ModelRole::Chat,
            ram_estimate: 3_000_000_000,
        },
        ModelEntry {
            id: "qwen3-coder-30b".to_owned(),
            name: "Qwen 3 Coder 30B MoE".to_owned(),
            hf_repo: "mlx-community/Qwen3-Coder-30B-A3B-Instruct-4bit".to_owned(),
            role: ModelRole::Code,
            ram_estimate: 18_000_000_000,
        },
        ModelEntry {
            id: "nomic-embed-text".to_owned(),
            name: "Nomic Embed Text v1.5".to_owned(),
            hf_repo: "mlx-community/nomic-embed-text-v1.5".to_owned(),
            role: ModelRole::Embed,
            ram_estimate: 200_000_000,
        },
    ];
    assert(entry_views(r@) =~= catalog());
    r
}

/// The name of a role, in small letters.
pub open spec fn role_name(role: ModelRole) -> Seq<char> {
    match role {
        ModelRole::Chat => "chat"@,
        ModelRole::Code => "code"@,
        ModelRole::Embed => "embed"@,
        ModelRole::Vision => "vision"@,
        ModelRole::Rerank => "rerank"@,
    }
}

/// The name of a role, in small letters.
pub fn role_text(role: ModelRole) -> (r: &'static str)
    ensures
        r@ == role_name(role),
{
    match role {
        ModelRole::Chat => "chat",
        ModelRole::Code => "code",
        ModelRole::Embed => "embed",
        ModelRole::Vision => "vision",
        ModelRole::Rerank => "rerank",
    }
}

/// The repository of the first of `entries` with the id `id`.
pub open spec fn repo_of(entries: Seq<EntryView>, id: Seq<char>) -> Option<Seq<char>>
    decreases entries.len(),
{
    if entries.len() == 0 {
        None
    } else if entries[0].id == id {
        Some(entries[0].hf_repo)
    } else {
        repo_of(entries.drop_first(), id)
    }
}

/// The repository that an id or a repository stands for: a repository, which has
/// a slash, for itself; an id of the catalog for its repository; anything else
/// for itself.
pub open spec fn resolved(id_or_repo: Seq<char>) -> Seq<char> {
    if id_or_repo.contains('/') {
        id_or_repo
    } else {
        match repo_of(catalog(), id_or_repo) {
            Some(repo) => repo,
            None => id_or_repo,
        }
    }
}

/// The repository that an id or a repository stands for.
pub fn resolve_repo(id_or_repo: &str) -> (r: String)
    ensures
        r@ == resolved(id_or_repo@),
{
    if contains_char(id_or_repo, '/') {
        return id_or_repo.to_owned();
    }
    let entries = default_catalog();
    let ghost all = entry_views(entries@);
    let mut i: usize = 0;
    assert(all.skip(0) =~= all);
    while i < entries.len()
        invariant
            i <= entries@.len(),
            all == entry_views(entries@),
            all == catalog(),
            repo_of(all, id_or_repo@) == repo_of(all.skip(i as int), id_or_repo@),
            !id_or_repo@.contains('/'),
        decreases entries@.len() - i,
    {
        let ghost rest = all.skip(i as int);
        assert(rest[0] == entries@[i as int]@);
        assert(rest.drop_first() =~= all.skip(i + 1));
        if same(entries[i].id.as_str(), id_or_repo) {
            return entries[i].hf_repo.clone();
        }
        i = i + 1;
    }
    id_or_repo.to_owned()
}

/// What an id stands for stands for itself.
pub proof fn law_resolving_twice_is_resolving_once(s: Seq<char>)
    ensures
        resolved(resolved(s)) == resolved(s),
{
    reveal_strlit("mlx-community/Qwen3-4B-Instruct-2507-4bit");
    reveal_strlit("mlx-community/Qwen3-Coder-30B-A3B-Instruct-4bit");
    reveal_strlit("mlx-community/nomic-embed-text-v1.5");
    reveal_with_fuel(repo_of, 4);
    let c = catalog();
    assert(c[0].hf_repo[13] == '/');
    assert(c[1].hf_repo[13] == '/');
    assert(c[2].hf_repo[13] == '/');
    assert(c.drop_first().drop_first().drop_first() =~= Seq::<EntryView>::empty());
}

/// No two models of the catalog have the same id.
pub proof fn law_catalog_ids_are_distinct(i: int, j: int)
    requires
        0 <= i < j < catalog().len(),
    ensures
        catalog()[i].id != catalog()[j].id,
{
    reveal_strlit("qwen3-4b-instruct");
    reveal_strlit("qwen3-coder-30b");
    reveal_strlit("nomic-embed-text");
    assert(catalog()[0].id.len() == 17);
    assert(catalog()[1].id.len() == 15);
    assert(catalog()[2].id.len() == 16);
}

/// The id of a model in the catalog stands for the repository of that model; what has a
/// slash stands for itself, and so does what is no id of the catalog.
pub proof fn law_what_a_name_stands_for(s: Seq<char>, i: int)
    ensures
        0 <= i < catalog().len() ==> resolved(catalog()[i].id) == catalog()[i].hf_repo,
        s.contains('/') ==> resolved(s) == s,
        (forall|k: int| 0 <= k < catalog().len() ==> (#[trigger] catalog()[k]).id != s)
            ==> resolved(s) == s,
{
    let c = catalog();
    assert(c.len() == 3);
    reveal_with_fuel(repo_of, 4);
    let c1 = c.drop_first();
    let c2 = c1.drop_first();
    assert(c1[0] == c[1] && c2[0] == c[2] && c2.drop_first().len() == 0);
    reveal_strlit("qwen3-4b-instruct");
    reveal_strlit("qwen3-coder-30b");
    reveal_strlit("nomic-embed-text");
    assert(c[0].id.len() == 17 && c[1].id.len() == 15 && c[2].id.len() == 16);
    assert(!c[0].id.contains('/'));
    assert(!c[1].id.contains('/'));
    assert(!c[2].id.contains('/'));
    if forall|k: int| 0 <= k < catalog().len() ==> (#[trigger] catalog()[k]).id != s {
        assert(c[0].id != s && c[1].id != s && c[2].id != s);
    }
}

} // verus!
