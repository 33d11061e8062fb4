//! Finding a model on disk, and fetching it.

use vstd::prelude::*;

use crate::error::{Error, ErrorView};
use crate::json;
use crate::json::JsonModel;
use crate::order;
use crate::order::sort_distinct;
use crate::shards::is_shard;
use crate::text;
use crate::text::{ends_with, find_char, replace_char, same};

verus! {

/// A directory that models are kept under.
#[derive(Debug, Clone, Copy, PartialEq, Eq, Structural)]
pub enum Root {
    /// This program's own cache: `.cache/base-mlx/models` under the user's home
    /// directory.
    Cache,
    /// LM Studio's models: `.lmstudio/models` under the user's home directory.
    LmStudio,
}

/// What a root is under the user's home directory, where there is one; the own cache
/// is `base-mlx/models` under the working directory where there is none.
pub open spec fn root_path(root: Root, has_home: bool) -> Seq<Seq<char>> {
    match root {
        Root::Cache => if has_home {
            seq![".cache"@, "base-mlx"@, "models"@]
        } else {
            seq!["base-mlx"@, "models"@]
        },
        Root::LmStudio => seq![".lmstudio"@, "models"@],
    }
}

/// What a root is under the user's home directory, or under the working directory
/// where there is none, segment by segment.
pub fn root_segments(root: Root, has_home: bool) -> (r: Vec<String>)
    ensures
        text::views(r@) == root_path(root, has_home),
{
    let r = match root {
        Root::Cache => if has_home {
            vec![".cache".to_owned(), "base-mlx".to_owned(), "models".to_owned()]
        } else {
            vec!["base-mlx".to_owned(), "models".to_owned()]
        },
        Root::LmStudio => vec![".lmstudio".to_owned(), "models".to_owned()],
    };
    assert(text::views(r@) =~= root_path(root, has_home));
    r
}

/// A model's directory: segments under a root.
#[derive(Debug)]
pub struct ModelDir {
    pub root: Root,
    pub segments: Vec<String>,
}

/// A [`ModelDir`] with its segments as sequences of characters.
pub struct DirView {
    pub root: Root,
    pub segments: Seq<Seq<char>>,
}

impl View for ModelDir {
    type V = DirView;

    open spec fn view(&self) -> DirView {
        DirView { root: self.root, segments: text::views(self.segments@) }
    }
}

/// The views of a list of directories.
pub open spec fn dir_views(dirs: Seq<ModelDir>) -> Seq<DirView> {
    dirs.map_values(|d: ModelDir| d@)
}

/// The roots that are searched, in order: the own cache, then LM Studio's
/// models, where there is a home directory.
pub open spec fn roots(has_home: bool) -> Seq<Root> {
    if has_home {
        seq![Root::Cache, Root::LmStudio]
    } else {
        seq![Root::Cache]
    }
}

/// The roots that are searched, in order.
pub fn search_dirs(has_home: bool) -> (r: Vec<Root>)
    ensures
        r@ == roots(has_home),
{
    let mut dirs = vec![Root::Cache];
    if has_home {
        dirs.push(Root::LmStudio);
    }
    assert(dirs@ =~= roots(has_home));
    dirs
}

/// A repository's name as that of one directory.
pub open spec fn mangled(hf_repo: Seq<char>) -> Seq<char> {
    text::replaced(hf_repo, '/', "--"@)
}

/// Where the first slash of a repository's name is.
pub open spec fn first_slash(hf_repo: Seq<char>) -> int {
    choose|i: int|
        0 <= i < hf_repo.len() && hf_repo[i] == '/' && forall|j: int|
            0 <= j < i ==> hf_repo[j] != '/'
}

/// The owner of a repository: what comes before the first slash.
pub open spec fn owner(hf_repo: Seq<char>) -> Seq<char> {
    if hf_repo.contains('/') {
        hf_repo.take(first_slash(hf_repo))
    } else {
        hf_repo
    }
}

/// The name of a repository at its owner: what comes after the first slash.
pub open spec fn repo_name(hf_repo: Seq<char>) -> Seq<char> {
    if hf_repo.contains('/') {
        hf_repo.skip(first_slash(hf_repo) + 1)
    } else {
        hf_repo
    }
}

/// Where a repository may be under a root: in one directory, or in its own under
/// its owner's.
pub open spec fn candidates_under(root: Root, hf_repo: Seq<char>) -> Seq<DirView> {
    seq![
        DirView { root, segments: seq![mangled(hf_repo)] },
        DirView { root, segments: seq![owner(hf_repo), repo_name(hf_repo)] },
    ]
}

/// Where a repository is looked for, in order.
pub open spec fn candidates(hf_repo: Seq<char>, has_home: bool) -> Seq<DirView> {
    if has_home {
        candidates_under(Root::Cache, hf_repo) + candidates_under(Root::LmStudio, hf_repo)
    } else {
        candidates_under(Root::Cache, hf_repo)
    }
}

/// The owner and the name of a repository.
pub fn split_repo(hf_repo: &str) -> (r: (String, String))
    ensures
        r.0@ == owner(hf_repo@),
        r.1@ == repo_name(hf_repo@),
{
    match find_char(hf_repo, '/') {
        Some(i) => {
            let n = hf_repo.unicode_len();
            proof {
                assert(hf_repo@[i as int] == '/');
                let k = first_slash(hf_repo@);
                if k < i {
                    assert(hf_repo@[k] != '/');
                }
                if i < k {
                    assert(hf_repo@[i as int] != '/');
                }
            }
            let a = hf_repo.substring_char(0, i).to_owned();
            let b = hf_repo.substring_char(i + 1, n).to_owned();
            assert(a@ =~= hf_repo@.take(i as int));
            assert(b@ =~= hf_repo@.skip(i + 1));
            (a, b)
        },
        None => (hf_repo.to_owned(), hf_repo.to_owned()),
    }
}

/// Where a repository is looked for, in order.
pub fn candidate_dirs(hf_repo: &str, has_home: bool) -> (r: Vec<ModelDir>)
    ensures
        dir_views(r@) == candidates(hf_repo@, has_home),
{
    let roots = search_dirs(has_home);
    let ghost cs = candidates(hf_repo@, has_home);
    let mut out: Vec<ModelDir> = Vec::new();
    let mut i: usize = 0;
    while i < roots.len()
        invariant
            i <= roots@.len(),
            roots@ == self::roots(has_home),
            cs == candidates(hf_repo@, has_home),
            out@.len() == 2 * i,
            dir_views(out@) =~= cs.take(2 * i),
        decreases roots@.len() - i,
    {
        let ghost before = dir_views(out@);
        let root = roots[i];
        let one = ModelDir { root, segments: vec![replace_char(hf_repo, '/', "--")] };
        let (o, n) = split_repo(hf_repo);
        let two = ModelDir { root, segments: vec![o, n] };
        assert(one@.segments =~= seq![mangled(hf_repo@)]);
        assert(two@.segments =~= seq![owner(hf_repo@), repo_name(hf_repo@)]);
        out.push(one);
        out.push(two);
        assert(dir_views(out@) =~= before.push(one@).push(two@));
        assert(cs[2 * i] == one@ && cs[2 * i + 1] == two@);
        i = i + 1;
    }
    assert(cs.take(2 * i) =~= cs);
    out
}

/// Looks for a repository on disk: the first place of which `has_config` says
/// that it holds a `config.json`.
pub fn find_local<F: Fn(&ModelDir) -> bool>(
    hf_repo: &str,
    has_home: bool,
    has_config: &F,
) -> (r: Option<ModelDir>)
    requires
        forall|d: &ModelDir| #[trigger] call_requires(*has_config, (d,)),
    ensures
        exists|dirs: Seq<ModelDir>| #[trigger]
            dir_views(dirs) == candidates(hf_repo@, has_home) && match r {
                Some(d) => exists|k: int|
                    0 <= k < dirs.len() && d == #[trigger] dirs[k] && call_ensures(
                        *has_config,
                        (&dirs[k],),
                        true,
                    ) && forall|j: int|
                        0 <= j < k ==> call_ensures(*has_config, (&#[trigger] dirs[j],), false),
                None => forall|j: int|
                    0 <= j < dirs.len() ==> call_ensures(
                        *has_config,
                        (&#[trigger] dirs[j],),
                        false,
                    ),
            },
{
    let mut rest = candidate_dirs(hf_repo, has_home);
    let ghost dirs = rest@;
    let ghost mut k: int = 0;
    assert(dirs.skip(0) =~= dirs);
    while rest.len() > 0
        invariant
            0 <= k <= dirs.len(),
            rest@ == dirs.skip(k),
            dir_views(dirs) == candidates(hf_repo@, has_home),
            forall|d: &ModelDir| #[trigger] call_requires(*has_config, (d,)),
            forall|j: int|
                0 <= j < k ==> call_ensures(*has_config, (&#[trigger] dirs[j],), false),
        decreases rest@.len(),
    {
        let d = rest.remove(0);
        assert(d == dirs[k]);
        if has_config(&d) {
            return Some(d);
        }
        proof {
            assert(dirs.skip(k).remove(0) =~= dirs.skip(k + 1));
            k = k + 1;
        }
    }
    None
}

/// Where a repository's files are kept once they are fetched.
pub fn repo_dir(hf_repo: &str) -> (r: ModelDir)
    ensures
        r@ == (DirView { root: Root::Cache, segments: seq![mangled(hf_repo@)] }),
{
    let r = ModelDir { root: Root::Cache, segments: vec![replace_char(hf_repo, '/', "--")] };
    assert(r@.segments =~= seq![mangled(hf_repo@)]);
    r
}

/// What is fetched is found again: the place that a repository is kept in is the
/// first that it is looked for in.
pub proof fn law_what_is_fetched_is_found_first(hf_repo: Seq<char>, has_home: bool)
    ensures
        candidates(hf_repo, has_home)[0] == (DirView {
            root: Root::Cache,
            segments: seq![mangled(hf_repo)],
        }),
{
}

/// A directory name never has a slash of the repository's name left in it.
pub proof fn law_mangled_names_have_no_slash(hf_repo: Seq<char>)
    ensures
        !mangled(hf_repo).contains('/'),
    decreases hf_repo.len(),
{
    reveal_strlit("--");
    if hf_repo.len() > 0 {
        law_mangled_names_have_no_slash(hf_repo.drop_first());
        let head = if hf_repo[0] == '/' {
            "--"@
        } else {
            seq![hf_repo[0]]
        };
        let tail = mangled(hf_repo.drop_first());
        assert(mangled(hf_repo) =~= head + tail);
        if mangled(hf_repo).contains('/') {
            let i = mangled(hf_repo).index_of('/');
            if i >= head.len() {
                assert(tail[i - head.len()] == '/');
            }
        }
    }
}

/// The files that a repository may have, but for the shards of its weights. None
/// of them need be there.
pub open spec fn candidate_names() -> Seq<Seq<char>> {
    seq![
        "config.json"@,
        "tokenizer.json"@,
        "tokenizer_config.json"@,
        "special_tokens_map.json"@,
        "model.safetensors"@,
        "model.safetensors.index.json"@,
    ]
}

/// The files that a repository may have, but for the shards of its weights.
pub fn candidate_files() -> (r: Vec<String>)
    ensures
        text::views(r@) == candidate_names(),
{
    let r = vec![
        "config.json".to_owned(),
        "tokenizer.json".to_owned(),
        "tokenizer_config.json".to_owned(),
        "special_tokens_map.json".to_owned(),
        "model.safetensors".to_owned(),
        "model.safetensors.index.json".to_owned(),
    ];
    assert(text::views(r@) =~= candidate_names());
    r
}

/// The file that lists the shards.
pub fn index_file() -> (r: String)
    ensures
        r@ == "model.safetensors.index.json"@,
{
    "model.safetensors.index.json".to_owned()
}

/// The shards that an index names: the texts among the values of its
/// `weight_map`.
pub open spec fn index_shards(index: JsonModel) -> Set<Seq<char>> {
    match index.member("weight_map"@) {
        Some(JsonModel::Object(m)) => Set::new(
            |s: Seq<char>| m.contains_value(JsonModel::Str(s)),
        ),
        _ => Set::empty(),
    }
}

/// The shards that an index names, in ascending order, each once.
pub fn shards_of(index: &serde_json::Value) -> (r: Vec<String>)
    ensures
        order::strictly_ascending(text::views(r@)),
        text::views(r@).to_set() == index_shards(json::json_model(*index)),
{
    let mut found: Vec<String> = Vec::new();
    let map = match json::value_get(index, "weight_map") {
        Some(v) => json::value_as_object(v),
        None => None,
    };
    let ghost wanted = index_shards(json::json_model(*index));
    match map {
        Some(m) => {
            let values = json::map_values(m);
            let mut i: usize = 0;
            while i < values.len()
                invariant
                    i <= values@.len(),
                    forall|s: Seq<char>|
                        text::views(found@).contains(s) <==> exists|j: int|
                            0 <= j < i && json::json_model(*#[trigger] values@[j])
                                == JsonModel::Str(s),
                decreases values@.len() - i,
            {
                let ghost before = text::views(found@);
                match json::value_as_str(values[i]) {
                    Some(s) => {
                        found.push(s.to_owned());
                        assert(text::views(found@) =~= before.push(s@));
                    },
                    None => {},
                }
                proof {
                    let after = text::views(found@);
                    assert forall|s: Seq<char>|
                        after.contains(s) <==> exists|j: int|
                            0 <= j < i + 1 && json::json_model(*#[trigger] values@[j])
                                == JsonModel::Str(s) by {
                        if json::json_model(*values@[i as int]) == JsonModel::Str(s) {
                            assert(after[after.len() - 1] == s);
                        }
                        if before.contains(s) {
                            let k = before.index_of(s);
                            assert(after[k] == s);
                        }
                        if after.contains(s) {
                            let k = after.index_of(s);
                            if k < before.len() {
                                assert(before[k] == s);
                            }
                        }
                    }
                }
                i = i + 1;
            }
            proof {
                let names = text::views(found@);
                assert forall|s: Seq<char>| names.to_set().contains(s) == wanted.contains(s) by {
                    assert(json::json_members(*m).contains_value(JsonModel::Str(s)) <==> exists|
                        j: int,
                    |
                        0 <= j < values@.len() && json::json_model(*#[trigger] values@[j])
                            == JsonModel::Str(s));
                }
                assert(names.to_set() =~= wanted);
            }
        },
        None => {
            assert(text::views(found@).to_set() =~= wanted);
        },
    }
    sort_distinct(found)
}

/// Reads the shards that an index names, in ascending order, each once.
pub fn parse_index(raw: &str) -> (r: Result<Vec<String>, Error>)
    ensures
        match json::json_parsed(raw@) {
            Ok(index) => r matches Ok(shards) && order::strictly_ascending(text::views(shards@))
                && text::views(shards@).to_set() == index_shards(index),
            Err(m) => r matches Err(e) && e@ == ErrorView::Serde(m),
        },
{
    match json::value_parse(raw) {
        Ok(v) => Ok(shards_of(&v)),
        Err(m) => Err(Error::Serde(m)),
    }
}

/// What a fetch brought: the repository, the directory and the files in it.
#[derive(Debug)]
pub struct PullReport {
    pub repo: String,
    pub dir: String,
    pub files: Vec<String>,
}

/// What a fetch does next.
#[derive(Debug)]
pub enum PullStep {
    /// Fetch this file.
    Fetch(String),
    /// Read the index of the shards, if it is there.
    ReadIndex,
    /// Fetch this shard, unless it is there.
    FetchShard(String),
    /// Nothing is left to do.
    Finished,
}

/// A [`PullStep`] with its text as a sequence of characters.
pub enum StepView {
    Fetch(Seq<char>),
    ReadIndex,
    FetchShard(Seq<char>),
    Finished,
}

impl View for PullStep {
    type V = StepView;

    open spec fn view(&self) -> StepView {
        match self {
            PullStep::Fetch(s) => StepView::Fetch(s@),
            PullStep::ReadIndex => StepView::ReadIndex,
            PullStep::FetchShard(s) => StepView::FetchShard(s@),
            PullStep::Finished => StepView::Finished,
        }
    }
}

/// What became of a step.
pub enum PullEvent {
    /// A file was fetched, or was not there to be fetched.
    Fetched(bool),
    /// A shard is on disk already.
    Present,
    /// There is no index.
    NoIndex,
    /// The index names these shards.
    Index(Seq<Seq<char>>),
}

/// The shards that are still to be brought, each once: those among `shards` that
/// were not brought yet.
pub open spec fn unbrought(pulled: Seq<Seq<char>>, shards: Seq<Seq<char>>) -> Seq<Seq<char>>
    decreases shards.len(),
{
    if shards.len() == 0 {
        Seq::empty()
    } else {
        let before = unbrought(pulled, shards.drop_last());
        if pulled.contains(shards.last()) || before.contains(shards.last()) {
            before
        } else {
            before.push(shards.last())
        }
    }
}

/// The shards that are still to be brought, each once.
fn unbrought_shards(pulled: &Vec<String>, shards: Vec<String>) -> (r: Vec<String>)
    ensures
        text::views(r@) == unbrought(text::views(pulled@), text::views(shards@)),
{
    let mut out: Vec<String> = Vec::new();
    let ghost all = text::views(shards@);
    let mut i: usize = 0;
    assert(text::views(out@) =~= unbrought(text::views(pulled@), all.take(0)));
    while i < shards.len()
        invariant
            i <= shards@.len(),
            all == text::views(shards@),
            text::views(out@) == unbrought(text::views(pulled@), all.take(i as int)),
        decreases shards@.len() - i,
    {
        let ghost before = text::views(out@);
        assert(all.take(i + 1).drop_last() =~= all.take(i as int));
        assert(all.take(i + 1).last() == shards@[i as int]@);
        if !has_name(pulled, shards[i].as_str()) && !has_name(&out, shards[i].as_str()) {
            let name = shards[i].clone();
            out.push(name);
            assert(text::views(out@) =~= before.push(name@));
        }
        i = i + 1;
    }
    assert(all.take(i as int) =~= all);
    out
}

/// Whether a name is in a list.
fn has_name(names: &Vec<String>, name: &str) -> (r: bool)
    ensures
        r == text::views(names@).contains(name@),
{
    let ghost all = text::views(names@);
    let mut i: usize = 0;
    while i < names.len()
        invariant
            i <= names@.len(),
            all == text::views(names@),
            forall|j: int| 0 <= j < i ==> #[trigger] all[j] != name@,
        decreases names@.len() - i,
    {
        assert(all[i as int] == names@[i as int]@);
        if same(names[i].as_str(), name) {
            return true;
        }
        i = i + 1;
    }
    false
}

/// Whether a directory with these files holds all that loading a model needs: its
/// configuration, its tokenizer, weights, and each of the shards that an index
/// names.
pub open spec fn complete(files: Seq<Seq<char>>, shards: Option<Seq<Seq<char>>>) -> bool {
    &&& files.contains("config.json"@)
    &&& files.contains("tokenizer.json"@)
    &&& exists|i: int| 0 <= i < files.len() && is_shard(#[trigger] files[i])
    &&& shards matches Some(s) ==> forall|i: int|
        0 <= i < s.len() ==> files.contains(#[trigger] s[i])
}

/// The names in an optional list.
pub open spec fn optional_views(names: Option<&Vec<String>>) -> Option<Seq<Seq<char>>> {
    match names {
        Some(n) => Some(text::views(n@)),
        None => None,
    }
}

/// Whether a directory with these files holds all that loading a model needs, so
/// that nothing has to be fetched. `shards` are those that its index names, where it
/// has one.
pub fn is_complete(files: &Vec<String>, shards: Option<&Vec<String>>) -> (r: bool)
    ensures
        r == complete(text::views(files@), optional_views(shards)),
{
    has_name(files, "config.json") && has_name(files, "tokenizer.json") && has_weights(files)
        && match shards {
        Some(s) => has_names(files, s),
        None => true,
    }
}

/// Whether one of the files holds weights.
fn has_weights(files: &Vec<String>) -> (r: bool)
    ensures
        r == exists|i: int|
            0 <= i < files@.len() && is_shard(#[trigger] text::views(files@)[i]),
{
    let ghost all = text::views(files@);
    let mut i: usize = 0;
    while i < files.len()
        invariant
            i <= files@.len(),
            all == text::views(files@),
            forall|j: int| 0 <= j < i ==> !is_shard(#[trigger] all[j]),
        decreases files@.len() - i,
    {
        assert(all[i as int] == files@[i as int]@);
        let name = files[i].as_str();
        if ends_with(name, ".safetensors") && !same(name, ".safetensors") {
            return true;
        }
        i = i + 1;
    }
    false
}

/// Whether all of `names` are among `files`.
fn has_names(files: &Vec<String>, names: &Vec<String>) -> (r: bool)
    ensures
        r == forall|i: int|
            0 <= i < names@.len() ==> text::views(files@).contains(
                #[trigger] text::views(names@)[i],
            ),
{
    let ghost all = text::views(names@);
    let mut i: usize = 0;
    while i < names.len()
        invariant
            i <= names@.len(),
            all == text::views(names@),
            forall|j: int| 0 <= j < i ==> text::views(files@).contains(#[trigger] all[j]),
        decreases names@.len() - i,
    {
        assert(all[i as int] == names@[i as int]@);
        if !has_name(files, names[i].as_str()) {
            return false;
        }
        i = i + 1;
    }
    true
}

/// How far a fetch is: which files and shards have been tried, and which files
/// were brought.
pub struct PullView {
    pub tried: nat,
    pub index_read: bool,
    pub shards: Seq<Seq<char>>,
    pub shards_tried: nat,
    pub pulled: Seq<Seq<char>>,
}

impl PullView {
    /// Nothing has been tried.
    pub open spec fn start() -> PullView {
        PullView {
            tried: 0,
            index_read: false,
            shards: Seq::empty(),
            shards_tried: 0,
            pulled: Seq::empty(),
        }
    }

    /// What is done next: first the files, then the index, then the shards.
    pub open spec fn step(self) -> StepView {
        if self.tried < candidate_names().len() {
            StepView::Fetch(candidate_names()[self.tried as int])
        } else if !self.index_read {
            StepView::ReadIndex
        } else if self.shards_tried < self.shards.len() {
            StepView::FetchShard(self.shards[self.shards_tried as int])
        } else {
            StepView::Finished
        }
    }

    /// Whether an event answers the step that is next.
    pub open spec fn answers(self, event: PullEvent) -> bool {
        match self.step() {
            StepView::Fetch(_) => event is Fetched,
            StepView::ReadIndex => event is NoIndex || event is Index,
            StepView::FetchShard(_) => event is Fetched || event is Present,
            StepView::Finished => false,
        }
    }

    /// How far the fetch is after an event.
    pub open spec fn after(self, event: PullEvent) -> PullView {
        match (self.step(), event) {
            (StepView::Fetch(f), PullEvent::Fetched(ok)) => PullView {
                tried: self.tried + 1,
                pulled: if ok {
                    self.pulled.push(f)
                } else {
                    self.pulled
                },
                ..self
            },
            (StepView::ReadIndex, PullEvent::NoIndex) => PullView { index_read: true, ..self },
            (StepView::ReadIndex, PullEvent::Index(shards)) => PullView {
                index_read: true,
                shards: unbrought(self.pulled, shards),
                ..self
            },
            (StepView::FetchShard(f), PullEvent::Fetched(ok)) => PullView {
                shards_tried: self.shards_tried + 1,
                pulled: if ok {
                    self.pulled.push(f)
                } else {
                    self.pulled
                },
                ..self
            },
            (StepView::FetchShard(_), PullEvent::Present) => PullView {
                shards_tried: self.shards_tried + 1,
                ..self
            },
            _ => self,
        }
    }
}

/// A fetch under way.
#[derive(Debug)]
pub struct Pull {
    files: Vec<String>,
    tried: usize,
    index_read: bool,
    shards: Vec<String>,
    shards_tried: usize,
    pulled: Vec<String>,
}

impl View for Pull {
    type V = PullView;

    closed spec fn view(&self) -> PullView {
        PullView {
            tried: self.tried as nat,
            index_read: self.index_read,
            shards: text::views(self.shards@),
            shards_tried: self.shards_tried as nat,
            pulled: text::views(self.pulled@),
        }
    }
}

impl Pull {
    #[verifier::type_invariant]
    closed spec fn well_formed(self) -> bool {
        &&& text::views(self.files@) == candidate_names()
        &&& self.tried <= self.files@.len()
        &&& self.shards_tried <= self.shards@.len()
        &&& self.index_read ==> self.tried == self.files@.len()
        &&& !self.index_read ==> self.shards_tried == 0 && self.shards@.len() == 0
    }

    /// Begins a fetch.
    pub fn new() -> (r: Self)
        ensures
            r@ == PullView::start(),
    {
        let files = candidate_files();
        let r = Pull {
            files,
            tried: 0,
            index_read: false,
            shards: Vec::new(),
            shards_tried: 0,
            pulled: Vec::new(),
        };
        assert(r@.shards =~= PullView::start().shards);
        assert(r@.pulled =~= PullView::start().pulled);
        r
    }

    /// What is done next.
    pub fn step(&self) -> (r: PullStep)
        ensures
            r@ == self@.step(),
    {
        proof {
            use_type_invariant(self);
            assert(self.files@.len() == candidate_names().len());
        }
        if self.tried < self.files.len() {
            assert(text::views(self.files@)[self.tried as int] == self.files@[self.tried as int]@);
            PullStep::Fetch(self.files[self.tried].clone())
        } else if !self.index_read {
            PullStep::ReadIndex
        } else if self.shards_tried < self.shards.len() {
            PullStep::FetchShard(self.shards[self.shards_tried].clone())
        } else {
            PullStep::Finished
        }
    }

    /// A file or shard was fetched, or was not there to be fetched.
    pub fn fetched(&mut self, ok: bool)
        requires
            old(self)@.answers(PullEvent::Fetched(ok)),
        ensures
            final(self)@ == old(self)@.after(PullEvent::Fetched(ok)),
    {
        proof {
            use_type_invariant(&*self);
            assert(self.files@.len() == candidate_names().len());
        }
        let ghost before = self@;
        let in_files = self.tried < self.files.len();
        let in_shards = self.shards_tried < self.shards.len();
        assert(in_files || in_shards);
        let name = if in_files {
            assert(text::views(self.files@)[self.tried as int] == self.files@[self.tried as int]@);
            self.files[self.tried].clone()
        } else {
            self.shards[self.shards_tried].clone()
        };
        if in_files {
            self.tried = self.tried + 1;
        } else {
            self.shards_tried = self.shards_tried + 1;
        }
        if ok {
            let ghost done = text::views(self.pulled@);
            let mut pulled: Vec<String> = Vec::new();
            std::mem::swap(&mut pulled, &mut self.pulled);
            pulled.push(name);
            self.pulled = pulled;
            assert(text::views(self.pulled@) =~= done.push(name@));
        }
        assert(self@ =~= before.after(PullEvent::Fetched(ok)));
    }

    /// A shard is on disk already.
    pub fn present(&mut self)
        requires
            old(self)@.step() is FetchShard,
        ensures
            final(self)@ == old(self)@.after(PullEvent::Present),
    {
        proof {
            use_type_invariant(&*self);
        }
        let in_shards = self.shards_tried < self.shards.len();
        assert(in_shards);
        self.shards_tried = self.shards_tried + 1;
    }

    /// The index was read: there is none, or it names these shards. Those that were
    /// brought already are not brought again.
    pub fn indexed(&mut self, shards: Option<Vec<String>>)
        requires
            old(self)@.step() is ReadIndex,
        ensures
            final(self)@ == old(self)@.after(
                match shards {
                    Some(s) => PullEvent::Index(text::views(s@)),
                    None => PullEvent::NoIndex,
                },
            ),
    {
        proof {
            use_type_invariant(&*self);
            assert(self.files@.len() == candidate_names().len());
        }
        match shards {
            Some(s) => {
                let mut whole = Pull::new();
                std::mem::swap(&mut whole, self);
                let Pull { files, tried, index_read: _, shards: _, shards_tried: _, pulled } =
                    whole;
                let shards = unbrought_shards(&pulled, s);
                *self = Pull { files, tried, index_read: true, shards, shards_tried: 0, pulled };
            },
            None => {
                self.index_read = true;
            },
        }
    }

    /// The files that were brought, in order.
    pub fn finish(self) -> (r: Vec<String>)
        ensures
            text::views(r@) == self@.pulled,
    {
        self.pulled
    }
}

/// How far a fetch is after a series of events.
pub open spec fn run(events: Seq<PullEvent>) -> PullView
    decreases events.len(),
{
    if events.len() == 0 {
        PullView::start()
    } else {
        run(events.drop_last()).after(events.last())
    }
}

/// Whether every event answers the step that is next when it comes.
pub open spec fn answered(events: Seq<PullEvent>) -> bool
    decreases events.len(),
{
    events.len() == 0 || (answered(events.drop_last()) && run(events.drop_last()).answers(
        events.last(),
    ))
}

/// How many files and shards were brought.
pub open spec fn brought(events: Seq<PullEvent>) -> nat
    decreases events.len(),
{
    if events.len() == 0 {
        0
    } else {
        brought(events.drop_last()) + if events.last() == PullEvent::Fetched(true) {
            1nat
        } else {
            0
        }
    }
}

proof fn lemma_progress(events: Seq<PullEvent>)
    requires
        answered(events),
    ensures
        ({
            let v = run(events);
            &&& v.tried <= candidate_names().len()
            &&& v.index_read ==> v.tried == candidate_names().len()
            &&& !v.index_read ==> v.shards_tried == 0 && v.shards.len() == 0
            &&& v.shards_tried <= v.shards.len()
            &&& v.tried + v.shards_tried + if v.index_read {
                1int
            } else {
                0
            } == events.len()
            &&& v.pulled.len() == brought(events)
        }),
    decreases events.len(),
{
    if events.len() > 0 {
        lemma_progress(events.drop_last());
    }
}

/// A fetch that has nothing left to do has tried each file, the index and each
/// shard exactly once, and reports as many files as were brought.
pub proof fn law_everything_is_tried_once(events: Seq<PullEvent>)
    requires
        answered(events),
        run(events).step() is Finished,
    ensures
        events.len() == candidate_names().len() + 1 + run(events).shards.len(),
        run(events).pulled.len() == brought(events),
{
    lemma_progress(events);
}

/// Only files that a repository may have, and shards that its index names, are
/// reported.
pub proof fn law_only_known_files_are_reported(events: Seq<PullEvent>, i: int)
    requires
        answered(events),
        0 <= i < run(events).pulled.len(),
    ensures
        candidate_names().contains(run(events).pulled[i]) || run(events).shards.contains(
            run(events).pulled[i],
        ),
    decreases events.len(),
{
    if events.len() > 0 {
        let before = run(events.drop_last());
        lemma_progress(events.drop_last());
        if i < before.pulled.len() {
            law_only_known_files_are_reported(events.drop_last(), i);
        }
    }
}

/// The shards still to be brought are each there once, and were not brought before.
proof fn lemma_unbrought(pulled: Seq<Seq<char>>, shards: Seq<Seq<char>>)
    ensures
        unbrought(pulled, shards).no_duplicates(),
        forall|i: int|
            0 <= i < unbrought(pulled, shards).len() ==> !pulled.contains(
                #[trigger] unbrought(pulled, shards)[i],
            ),
    decreases shards.len(),
{
    if shards.len() > 0 {
        lemma_unbrought(pulled, shards.drop_last());
    }
}

proof fn lemma_candidates_differ()
    ensures
        candidate_names().no_duplicates(),
{
    reveal_strlit("config.json");
    reveal_strlit("tokenizer.json");
    reveal_strlit("tokenizer_config.json");
    reveal_strlit("special_tokens_map.json");
    reveal_strlit("model.safetensors");
    reveal_strlit("model.safetensors.index.json");
    let names = candidate_names();
    assert forall|i: int, j: int| 0 <= i < j < names.len() implies names[i] != names[j] by {
        assert(names[i].len() != names[j].len() || names[i][0] != names[j][0]);
    }
}

proof fn lemma_each_once(events: Seq<PullEvent>)
    requires
        answered(events),
    ensures
        ({
            let v = run(events);
            &&& v.pulled.no_duplicates()
            &&& v.shards.no_duplicates()
            &&& !v.index_read ==> forall|i: int|
                v.tried <= i < candidate_names().len() ==> !v.pulled.contains(
                    #[trigger] candidate_names()[i],
                )
            &&& forall|i: int|
                v.shards_tried <= i < v.shards.len() ==> !v.pulled.contains(#[trigger] v.shards[i])
        }),
    decreases events.len(),
{
    if events.len() > 0 {
        lemma_progress(events.drop_last());
        lemma_each_once(events.drop_last());
        lemma_candidates_differ();
        let before = run(events.drop_last());
        let v = run(events);
        if let PullEvent::Index(shards) = events.last() {
            lemma_unbrought(before.pulled, shards);
        }
        if events.last() == PullEvent::Fetched(true) {
            let name = v.pulled.last();
            assert(v.pulled =~= before.pulled.push(name));
            assert(!before.pulled.contains(name));
            assert forall|x: Seq<char>| v.pulled.contains(x) == (x == name
                || before.pulled.contains(x)) by {
                if before.pulled.contains(x) {
                    let k = before.pulled.index_of(x);
                    assert(v.pulled[k] == x);
                }
                if v.pulled.contains(x) {
                    let k = v.pulled.index_of(x);
                    if k < before.pulled.len() {
                        assert(before.pulled[k] == x);
                    }
                }
            }
        }
    }
}

/// No file is reported twice.
pub proof fn law_every_file_is_reported_once(events: Seq<PullEvent>)
    requires
        answered(events),
    ensures
        run(events).pulled.no_duplicates(),
{
    lemma_each_once(events);
}

/// The owner and the name of a repository are what stands before and behind its first
/// slash; one without a slash is both.
pub proof fn law_owner_and_name_make_the_repository(hf_repo: Seq<char>)
    ensures
        hf_repo.contains('/') ==> owner(hf_repo) + seq!['/'] + repo_name(hf_repo) == hf_repo
            && !owner(hf_repo).contains('/'),
        !hf_repo.contains('/') ==> owner(hf_repo) == hf_repo && repo_name(hf_repo) == hf_repo,
{
    if hf_repo.contains('/') {
        lemma_a_slash_is_first(hf_repo, hf_repo.index_of('/'));
        let i = first_slash(hf_repo);
        assert(owner(hf_repo) + seq!['/'] + repo_name(hf_repo) =~= hf_repo);
        if owner(hf_repo).contains('/') {
            let j = owner(hf_repo).index_of('/');
            assert(hf_repo[j] == '/');
        }
    }
}

proof fn lemma_a_slash_is_first(hf_repo: Seq<char>, k: int)
    requires
        0 <= k < hf_repo.len(),
        hf_repo[k] == '/',
    ensures
        exists|i: int|
            0 <= i < hf_repo.len() && hf_repo[i] == '/' && forall|j: int|
                0 <= j < i ==> hf_repo[j] != '/',
    decreases k,
{
    if exists|j: int| 0 <= j < k && hf_repo[j] == '/' {
        let j = choose|j: int| 0 <= j < k && hf_repo[j] == '/';
        lemma_a_slash_is_first(hf_repo, j);
    }
}

/// A repository is looked for in the own cache first and then among LM Studio's models,
/// where there is a home directory; in each in one directory first, with dashes for the
/// slashes of its name, and then under its owner.
pub proof fn law_where_a_repository_is_looked_for(hf_repo: Seq<char>, has_home: bool)
    ensures
        ({
            let one = seq![text::replaced(hf_repo, '/', "--"@)];
            let two = seq![owner(hf_repo), repo_name(hf_repo)];
            let all = candidates(hf_repo, has_home);
            &&& all.len() == if has_home {
                4
            } else {
                2int
            }
            &&& all[0] == (DirView { root: Root::Cache, segments: one })
            &&& all[1] == (DirView { root: Root::Cache, segments: two })
            &&& has_home ==> all[2] == (DirView { root: Root::LmStudio, segments: one })
            &&& has_home ==> all[3] == (DirView { root: Root::LmStudio, segments: two })
        }),
{
}

/// The shards that are still to be brought are those of the index that were not, each
/// once.
pub proof fn law_what_is_still_to_be_brought(
    pulled: Seq<Seq<char>>,
    shards: Seq<Seq<char>>,
    name: Seq<char>,
)
    ensures
        unbrought(pulled, shards).contains(name) <==> shards.contains(name) && !pulled.contains(
            name,
        ),
        forall|i: int, j: int|
            0 <= i < j < unbrought(pulled, shards).len() ==> #[trigger] unbrought(
                pulled,
                shards,
            )[i] != #[trigger] unbrought(pulled, shards)[j],
    decreases shards.len(),
{
    if shards.len() > 0 {
        let rest = shards.drop_last();
        let last = shards.last();
        law_what_is_still_to_be_brought(pulled, rest, name);
        law_what_is_still_to_be_brought(pulled, rest, last);
        let before = unbrought(pulled, rest);
        let after = unbrought(pulled, shards);
        assert(shards[shards.len() - 1] == last);
        if rest.contains(name) {
            let i = rest.index_of(name);
            assert(shards[i] == name);
        }
        if shards.contains(name) && name != last {
            let i = shards.index_of(name);
            assert(rest[i] == name);
        }
        if before.contains(name) {
            let i = before.index_of(name);
            assert(after[i] == name);
        }
        if after.contains(name) {
            let i = after.index_of(name);
            if i < before.len() {
                assert(before[i] == name);
            }
        }
        if !pulled.contains(last) && !before.contains(last) {
            assert(after[before.len() as int] == last);
            assert forall|i: int, j: int| 0 <= i < j < after.len() implies #[trigger] after[i]
                != #[trigger] after[j] by {
                assert(before[i] == after[i]);
                if j < before.len() {
                    assert(before[j] == after[j]);
                } else {
                    assert(before.contains(before[i]));
                }
            }
        }
    }
}

/// A file is a shard of an index exactly where some tensor stands in it by its `weight_map`.
pub proof fn law_which_files_an_index_names(index: JsonModel, file: Seq<char>)
    ensures
        index_shards(index).contains(file) <==> (index.member("weight_map"@) matches Some(map)
            && exists|tensor: Seq<char>| #[trigger]
            map.member(tensor) == Some(JsonModel::Str(file))),
{
    match index.member("weight_map"@) {
        Some(JsonModel::Object(m)) => {
            let map = JsonModel::Object(m);
            if m.contains_value(JsonModel::Str(file)) {
                let t = choose|t: Seq<char>| m.contains_key(t) && m[t] == JsonModel::Str(file);
                assert(map.member(t) == Some(JsonModel::Str(file)));
            }
            if exists|tensor: Seq<char>| #[trigger]
                map.member(tensor) == Some(JsonModel::Str(file)) {
                let t = choose|tensor: Seq<char>| #[trigger]
                    map.member(tensor) == Some(JsonModel::Str(file));
                assert(m.contains_key(t) && m[t] == JsonModel::Str(file));
            }
        },
        _ => {},
    }
}

} // verus!
