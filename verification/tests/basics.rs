use base_mlx::error::Error;
use base_mlx::float_bits::F32;
use base_mlx::order::{is_before, sort_distinct, sort_texts};
use base_mlx::registry::{default_catalog, resolve_repo, role_text, ModelRole};
use base_mlx::sampler::SamplingParams;
use base_mlx::text::{
    chars_of, concat2, concat3, contains_char, decimal_int_text, decimal_text, ends_with,
    ends_with_char, find_char, pad, replace_char, same, starts_with,
};

fn texts(v: &[&str]) -> Vec<String> {
    v.iter().map(|s| s.to_string()).collect()
}

#[test]
fn numbers_are_written_in_decimal() {
    assert_eq!(decimal_text(0), "0");
    assert_eq!(decimal_text(9), "9");
    assert_eq!(decimal_text(10), "10");
    assert_eq!(decimal_text(1_234_567_890), "1234567890");
    assert_eq!(decimal_text(u64::MAX), u64::MAX.to_string());
    assert_eq!(decimal_int_text(0), "0");
    assert_eq!(decimal_int_text(-7), "-7");
    assert_eq!(decimal_int_text(i32::MIN), i32::MIN.to_string());
    assert_eq!(decimal_int_text(i32::MAX), i32::MAX.to_string());
}

#[test]
fn texts_are_joined_and_compared() {
    assert!(same("a\u{e9}", "a\u{e9}"));
    assert!(!same("a", "b"));
    assert!(!same("a", "ab"));
    assert_eq!(concat2("ab", "c"), "abc");
    assert_eq!(concat3("a", "", "c"), "ac");
    assert_eq!(chars_of("a\u{1f419}b"), vec!['a', '\u{1f419}', 'b']);
}

#[test]
fn characters_are_found_and_replaced() {
    assert!(contains_char("a/b", '/'));
    assert!(!contains_char("", '/'));
    assert_eq!(find_char("a/b/c", '/'), Some(1));
    assert_eq!(find_char("\u{1f419}/", '/'), Some(1));
    assert_eq!(find_char("abc", '/'), None);
    assert_eq!(replace_char("a/b/c", '/', "--"), "a--b--c");
    assert_eq!(replace_char("abc", '/', "--"), "abc");
    assert_eq!(replace_char("//", '/', ""), "");
}

#[test]
fn prefixes_and_suffixes_are_recognised() {
    assert!(starts_with("language_model.x", "language_model."));
    assert!(!starts_with("language", "language_model."));
    assert!(starts_with("x", ""));
    assert!(ends_with("a.safetensors", ".safetensors"));
    assert!(!ends_with("a.json", ".safetensors"));
    assert!(!ends_with("s", ".safetensors"));
    assert!(ends_with_char("ab\u{fffd}", '\u{fffd}'));
    assert!(!ends_with_char("", 'x'));
}

#[test]
fn padding_fills_up_to_a_width() {
    assert_eq!(pad("ab", 4), format!("{:4}", "ab"));
    assert_eq!(pad("abcd", 4), "abcd");
    assert_eq!(pad("abcde", 4), "abcde");
    assert_eq!(pad("\u{e9}", 3), format!("{:3}", "\u{e9}"));
}

#[test]
fn each_error_names_its_kind() {
    let m = || "m".to_string();
    assert_eq!(Error::Io(m()).message(), "io: m");
    assert_eq!(Error::Safetensors(m()).message(), "safetensors: m");
    assert_eq!(Error::Serde(m()).message(), "serde: m");
    assert_eq!(Error::Tokenizer(m()).message(), "tokenizer: m");
    assert_eq!(Error::ModelLoad(m()).message(), "model load: m");
    assert_eq!(
        Error::UnsupportedArchitecture(m()).message(),
        "unsupported architecture: m"
    );
    assert_eq!(Error::InvalidConfig(m()).message(), "invalid config: m");
    assert_eq!(Error::Inference(m()).message(), "inference: m");
    assert_eq!(Error::Other(m()).message(), "other: m");
}

#[test]
fn the_sign_of_a_number_is_read_from_its_bits() {
    for x in [
        0.0f32,
        -0.0,
        1.0,
        -1.0,
        0.7,
        f32::MIN_POSITIVE,
        1.0e-45,
        f32::MAX,
        f32::INFINITY,
        f32::NEG_INFINITY,
        f32::NAN,
        -f32::NAN,
    ] {
        assert_eq!(F32 { bits: x.to_bits() }.is_positive(), x > 0.0, "{x}");
    }
}

#[test]
fn texts_are_ordered_like_strings() {
    let all = ["", "a", "ab", "b", "model-00001", "model-00002", "model", "\u{e9}", "\u{1f419}"];
    for a in all {
        for b in all {
            assert_eq!(is_before(a, b), a < b, "{a:?} {b:?}");
        }
    }
}

#[test]
fn sorting_keeps_what_is_equal() {
    assert_eq!(sort_texts(texts(&["b", "a", "b", "", "ab"])), texts(&["", "a", "ab", "b", "b"]));
    assert_eq!(sort_texts(Vec::new()), texts(&[]));
    assert_eq!(sort_distinct(texts(&["b", "a", "b", "a"])), texts(&["a", "b"]));
    assert_eq!(sort_distinct(Vec::new()), texts(&[]));
}

#[test]
fn the_catalog_holds_three_models() {
    let c = default_catalog();
    let ids: Vec<&str> = c.iter().map(|m| m.id.as_str()).collect();
    assert_eq!(ids, ["qwen3-4b-instruct", "qwen3-coder-30b", "nomic-embed-text"]);
    assert_eq!(c[0].name, "Qwen 3 4B Instruct");
    assert_eq!(c[1].hf_repo, "mlx-community/Qwen3-Coder-30B-A3B-Instruct-4bit");
    assert_eq!(c[2].role, ModelRole::Embed);
    assert_eq!(c[0].ram_estimate, 3_000_000_000);
    assert_eq!(c[1].ram_estimate, 18_000_000_000);
    assert_eq!(c[2].ram_estimate, 200_000_000);
}

#[test]
fn the_ids_of_the_catalog_differ() {
    let c = default_catalog();
    for i in 0..c.len() {
        for j in 0..i {
            assert_ne!(c[i].id, c[j].id);
        }
    }
}

#[test]
fn roles_are_named_in_small_letters() {
    assert_eq!(role_text(ModelRole::Chat), "chat");
    assert_eq!(role_text(ModelRole::Code), "code");
    assert_eq!(role_text(ModelRole::Embed), "embed");
    assert_eq!(role_text(ModelRole::Vision), "vision");
    assert_eq!(role_text(ModelRole::Rerank), "rerank");
}

#[test]
fn an_id_stands_for_its_repository() {
    let repo = "mlx-community/Qwen3-4B-Instruct-2507-4bit";
    assert_eq!(resolve_repo("qwen3-4b-instruct"), repo);
    assert_eq!(resolve_repo("nomic-embed-text"), "mlx-community/nomic-embed-text-v1.5");
    assert_eq!(resolve_repo("owner/name"), "owner/name");
    assert_eq!(resolve_repo("unknown"), "unknown");
    for s in ["qwen3-4b-instruct", "unknown", "owner/name"] {
        assert_eq!(resolve_repo(&resolve_repo(s)), resolve_repo(s));
    }
}

#[test]
fn sampling_defaults() {
    let p = SamplingParams::default();
    assert_eq!(p.temperature.bits, 0.7f32.to_bits());
    assert_eq!(p.top_p.bits, 0.95f32.to_bits());
    assert_eq!(p.top_k, 64);
    assert_eq!(p.repetition_penalty.bits, 1.0f32.to_bits());
    assert!(p.seed.is_none() && p.grammar.is_none());
    let g = SamplingParams::greedy();
    assert_eq!(g.temperature.bits, 0.0f32.to_bits());
    assert_eq!(g.top_p.bits, 1.0f32.to_bits());
    assert_eq!(g.top_k, 0);
    assert_eq!(g.repetition_penalty.bits, 1.0f32.to_bits());
}
