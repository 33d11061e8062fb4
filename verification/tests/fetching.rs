use std::cell::RefCell;

use base_mlx::inspect::{inspect_shard, summary_line, tensor_line, Listing, TensorInfo};
use base_mlx::pull::{
    candidate_dirs, candidate_files, find_local, index_file, is_complete, parse_index, repo_dir,
    root_segments, search_dirs, shards_of, split_repo, ModelDir, Pull, PullStep, Root,
};
use base_mlx::shards::{add_shard, model_shards, shard_error, shard_files, Named};
use base_mlx::tensors::{Tensor, TensorMap};

fn texts(v: &[&str]) -> Vec<String> {
    v.iter().map(|s| s.to_string()).collect()
}

const REPO: &str = "mlx-community/Qwen3-0.6B-4bit";
const MANGLED: &str = "mlx-community--Qwen3-0.6B-4bit";

#[test]
fn the_roots_that_are_searched() {
    assert_eq!(search_dirs(true), vec![Root::Cache, Root::LmStudio]);
    assert_eq!(search_dirs(false), vec![Root::Cache]);
    assert_eq!(root_segments(Root::Cache, true), texts(&[".cache", "base-mlx", "models"]));
    assert_eq!(root_segments(Root::Cache, false), texts(&["base-mlx", "models"]));
    assert_eq!(root_segments(Root::LmStudio, true), texts(&[".lmstudio", "models"]));
}

#[test]
fn a_repository_is_split_at_its_first_slash() {
    let split = |s: &str| split_repo(s);
    assert_eq!(split("a/b"), ("a".to_string(), "b".to_string()));
    assert_eq!(split("a/b/c"), ("a".to_string(), "b/c".to_string()));
    assert_eq!(split("ab"), ("ab".to_string(), "ab".to_string()));
    assert_eq!(split("/b"), ("".to_string(), "b".to_string()));
}

#[test]
fn a_repository_is_looked_for_in_four_places() {
    let dirs = candidate_dirs(REPO, true);
    let shown: Vec<(Root, Vec<String>)> =
        dirs.into_iter().map(|d| (d.root, d.segments)).collect();
    let owner = texts(&["mlx-community", "Qwen3-0.6B-4bit"]);
    assert_eq!(
        shown,
        vec![
            (Root::Cache, texts(&[MANGLED])),
            (Root::Cache, owner.clone()),
            (Root::LmStudio, texts(&[MANGLED])),
            (Root::LmStudio, owner),
        ]
    );
    assert_eq!(candidate_dirs(REPO, false).len(), 2);
}

#[test]
fn the_first_place_with_a_configuration_is_taken() {
    let asked: RefCell<usize> = RefCell::new(0);
    let probe = |d: &ModelDir| {
        *asked.borrow_mut() += 1;
        d.root == Root::LmStudio && d.segments.len() == 2
    };
    let d = find_local(REPO, true, &probe).unwrap();
    assert_eq!(d.root, Root::LmStudio);
    assert_eq!(d.segments, texts(&["mlx-community", "Qwen3-0.6B-4bit"]));
    assert_eq!(*asked.borrow(), 4);
    assert!(find_local(REPO, false, &probe).is_none());
    assert!(find_local(REPO, true, &|_: &ModelDir| false).is_none());
    let d = find_local(REPO, true, &|_: &ModelDir| true).unwrap();
    assert_eq!((d.root, d.segments), (Root::Cache, texts(&[MANGLED])));
}

#[test]
fn what_is_fetched_is_found_first() {
    let kept = repo_dir(REPO);
    let first = candidate_dirs(REPO, true).remove(0);
    assert_eq!((kept.root, kept.segments.clone()), (first.root, first.segments));
    assert!(!kept.segments[0].contains('/'));
}

#[test]
fn the_shards_of_an_index() {
    let raw = r#"{"metadata":{},"weight_map":{"a":"model-2","b":"model-1","c":"model-2","d":3}}"#;
    assert_eq!(parse_index(raw).unwrap(), texts(&["model-1", "model-2"]));
    let value: serde_json::Value = serde_json::from_str(raw).unwrap();
    assert_eq!(shards_of(&value), texts(&["model-1", "model-2"]));
    assert_eq!(parse_index("{}").unwrap(), texts(&[]));
    assert_eq!(parse_index(r#"{"weight_map":[1]}"#).unwrap(), texts(&[]));
    assert!(parse_index("{").unwrap_err().message().starts_with("serde: "));
}

/// Runs a fetch. `remote` is what can be fetched, `disk` what is there.
fn fetch(remote: &[&str], disk: &[&str], index: Option<&str>) -> (Vec<String>, Vec<String>) {
    let mut pull = Pull::new();
    let mut tried = Vec::new();
    loop {
        match pull.step() {
            PullStep::Fetch(f) => {
                pull.fetched(remote.contains(&f.as_str()));
                tried.push(f);
            }
            PullStep::ReadIndex => {
                tried.push("<index>".to_string());
                pull.indexed(index.map(|raw| parse_index(raw).unwrap()));
            }
            PullStep::FetchShard(f) => {
                if disk.contains(&f.as_str()) {
                    pull.present();
                } else {
                    pull.fetched(remote.contains(&f.as_str()));
                }
                tried.push(f);
            }
            PullStep::Finished => break,
        }
    }
    (tried, pull.finish())
}

#[test]
fn a_single_file_model_is_fetched() {
    let remote = ["config.json", "tokenizer.json", "model.safetensors"];
    let (tried, pulled) = fetch(&remote, &[], None);
    let mut all = candidate_files();
    assert_eq!(all.len(), 6);
    assert_eq!(all[0], "config.json");
    assert_eq!(all[5], index_file());
    all.push("<index>".to_string());
    assert_eq!(tried, all);
    assert_eq!(pulled, texts(&remote));
}

#[test]
fn the_shards_of_a_model_are_fetched_unless_they_are_there() {
    let index = r#"{"weight_map":{"x":"s3","y":"s1","z":"s2","w":"s4"}}"#;
    let remote = ["config.json", "model.safetensors.index.json", "s1", "s2", "s3"];
    let (tried, pulled) = fetch(&remote, &["s2"], Some(index));
    assert_eq!(tried.len(), 6 + 1 + 4);
    assert_eq!(tried[7..], texts(&["s1", "s2", "s3", "s4"]));
    assert_eq!(
        pulled,
        texts(&["config.json", "model.safetensors.index.json", "s1", "s3"])
    );
}

#[test]
fn a_file_is_reported_once() {
    let index = r#"{"weight_map":{"x":"model.safetensors","y":"s1"}}"#;
    let remote = ["model.safetensors", "s1"];
    let (tried, pulled) = fetch(&remote, &[], Some(index));
    assert_eq!(tried.len(), 6 + 1 + 1);
    assert_eq!(pulled, texts(&["model.safetensors", "s1"]));

    let mut pull = Pull::new();
    for _ in 0..6 {
        pull.fetched(false);
    }
    pull.indexed(Some(texts(&["s1", "s2", "s1"])));
    while let PullStep::FetchShard(_) = pull.step() {
        pull.fetched(true);
    }
    assert_eq!(pull.finish(), texts(&["s1", "s2"]));
}

#[test]
fn a_complete_copy_has_all_that_loading_needs() {
    let files = texts(&["config.json", "tokenizer.json", "s1.safetensors", "s2.safetensors"]);
    let shards = texts(&["s1.safetensors", "s2.safetensors"]);
    assert!(is_complete(&files, None));
    assert!(is_complete(&files, Some(&shards)));
    assert!(is_complete(&files, Some(&Vec::new())));
    assert!(!is_complete(&files, Some(&texts(&["s3.safetensors"]))));
    for missing in 0..2 {
        let mut fewer = files.clone();
        fewer.remove(missing);
        assert!(!is_complete(&fewer, None));
    }
    assert!(!is_complete(&texts(&["config.json", "tokenizer.json"]), None));
    assert!(!is_complete(&texts(&["config.json", "tokenizer.json", ".safetensors"]), None));
}

#[test]
fn nothing_need_be_there() {
    let (tried, pulled) = fetch(&[], &[], None);
    assert_eq!(tried.len(), 7);
    assert!(pulled.is_empty());
}

#[test]
fn weight_files_are_sorted() {
    let names = texts(&[
        "model-00002-of-00002.safetensors",
        "config.json",
        "model-00001-of-00002.safetensors",
        "safetensors",
        ".safetensors",
        "x.safetensors.bak",
    ]);
    let shards = texts(&["model-00001-of-00002.safetensors", "model-00002-of-00002.safetensors"]);
    assert_eq!(shard_files(names.clone()), shards);
    assert_eq!(model_shards("dir", names).unwrap(), shards);
    assert_eq!(
        model_shards("/m", texts(&["config.json"])).unwrap_err().message(),
        "model load: no .safetensors in /m"
    );
    assert_eq!(shard_error("/m/a", "broken").message(), "model load: load /m/a: broken");
}

fn named(name: &str, data: u32) -> Named<u32> {
    Named { name: name.to_string(), tensor: Tensor { shape: vec![1], data } }
}

#[test]
fn only_tensors_with_the_prefix_are_read() {
    let mut map = TensorMap::new();
    let shard = vec![named("language_model.a", 1), named("vision.b", 2), named("language_model.c", 3)];
    add_shard(&mut map, shard, "language_model.");
    assert_eq!(map.len(), 2);
    assert_eq!(map.remove("language_model.c").unwrap().data, 3);
    assert!(map.remove("vision.b").is_none());
}

#[test]
fn a_later_tensor_takes_the_place_of_an_earlier() {
    let mut map = TensorMap::new();
    add_shard(&mut map, vec![named("a", 1), named("b", 2), named("a", 3)], "");
    assert_eq!(map.len(), 2);
    add_shard(&mut map, vec![named("b", 4)], "");
    assert_eq!(map.len(), 2);
    assert_eq!(map.remove("a").unwrap().data, 3);
    assert_eq!(map.remove("b").unwrap().data, 4);
    assert_eq!(map.len(), 0);
}

/// A weight file with these tensors of bytes.
fn weight_bytes(tensors: &[(&str, &[usize])]) -> Vec<u8> {
    let mut header = String::from("{");
    let mut end = 0usize;
    for (name, shape) in tensors {
        if end > 0 {
            header.push(',');
        }
        let n: usize = shape.iter().product();
        header.push_str(&format!(
            "\"{name}\":{{\"dtype\":\"U8\",\"shape\":{shape:?},\"data_offsets\":[{end},{}]}}",
            end + n
        ));
        end += n;
    }
    header.push('}');
    while header.len() % 8 != 0 {
        header.push(' ');
    }
    let mut bytes = (header.len() as u64).to_le_bytes().to_vec();
    bytes.extend(header.as_bytes());
    bytes.extend(vec![0u8; end]);
    bytes
}

#[test]
fn the_tensors_of_a_weight_file_are_listed() {
    let bytes = weight_bytes(&[("a", &[2, 3]), ("b", &[4])]);
    let mut listing = Listing::new();
    inspect_shard(&mut listing, &bytes, 20).unwrap();
    assert_eq!(listing.total, 2);
    let mut lines: Vec<String> = listing.shown.iter().map(tensor_line).collect();
    lines.sort();
    assert_eq!(
        lines,
        vec![
            format!("  {:60}  {:?}  {:?}", "a", [2, 3], safetensors::Dtype::U8),
            format!("  {:60}  {:?}  {:?}", "b", [4], safetensors::Dtype::U8),
        ]
    );
    assert_eq!(summary_line(1, &listing), "(1 shards, 2 tensors total; showing 2)");
}

#[test]
fn no_more_is_shown_than_the_limit() {
    let bytes = weight_bytes(&[("a", &[1]), ("b", &[1]), ("c", &[1])]);
    let mut listing = Listing::new();
    for (shown, total) in [(3, 3), (4, 6), (4, 9)] {
        inspect_shard(&mut listing, &bytes, 4).unwrap();
        assert_eq!((listing.shown.len(), listing.total), (shown, total));
    }
    assert_eq!(summary_line(3, &listing), "(3 shards, 9 tensors total; showing 4)");
}

/// A weight file with this header and no data.
fn headed(header: &str) -> Vec<u8> {
    let mut bytes = (header.len() as u64).to_le_bytes().to_vec();
    bytes.extend(header.as_bytes());
    bytes
}

#[test]
fn a_header_that_claims_more_than_fits_is_rejected() {
    let most = usize::MAX;
    for end in [most, most - 8] {
        let header = format!(
            "{{\"a\":{{\"dtype\":\"U8\",\"shape\":[{end}],\"data_offsets\":[0,{end}]}}}}"
        );
        let mut listing = Listing::new();
        let error = inspect_shard(&mut listing, &headed(&header), 4).unwrap_err();
        assert_eq!(error, "header claims more than fits");
        assert_eq!((listing.shown.len(), listing.total), (0, 0));
    }
    let header = "{\"a\":{\"dtype\":\"U8\",\"shape\":[9],\"data_offsets\":[0,9]}}";
    let bytes = headed(header);
    let expected = safetensors::SafeTensors::deserialize(&bytes).unwrap_err().to_string();
    assert_eq!(inspect_shard(&mut Listing::new(), &bytes, 4).unwrap_err(), expected);
}

#[test]
fn a_header_that_cannot_be_read_is_rejected() {
    let mut too_long = 9u64.to_le_bytes().to_vec();
    too_long.extend(b"{}");
    let mut too_large = 100_000_001u64.to_le_bytes().to_vec();
    too_large.extend(b"{}");
    let mut no_text = 2u64.to_le_bytes().to_vec();
    no_text.extend([0xff, 0xfe]);
    for bytes in [too_long, too_large, no_text, headed("[]"), headed("{")] {
        let expected = safetensors::SafeTensors::deserialize(&bytes).unwrap_err().to_string();
        assert_eq!(inspect_shard(&mut Listing::new(), &bytes, 4).unwrap_err(), expected);
    }
    assert!(inspect_shard(&mut Listing::new(), &headed("{}"), 4).is_ok());
}

#[test]
fn what_is_no_weight_file_is_rejected() {
    let mut listing = Listing::new();
    let error = inspect_shard(&mut listing, b"short", 4).unwrap_err();
    let expected = safetensors::SafeTensors::deserialize(b"short").unwrap_err().to_string();
    assert_eq!(error, expected);
    assert_eq!((listing.shown.len(), listing.total), (0, 0));
}

#[test]
fn tensor_lines_are_padded() {
    let line = |name: &str, shape: Vec<usize>| {
        tensor_line(&TensorInfo { name: name.to_string(), shape, dtype: "F16".to_string() })
    };
    assert_eq!(line("x", vec![]), format!("  {:60}  []  F16", "x"));
    let long = "n".repeat(70);
    assert_eq!(line(&long, vec![1, 2, 3]), format!("  {long}  [1, 2, 3]  F16"));
}
