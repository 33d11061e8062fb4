use base_mlx::flush::{can_flush, flush_decoded, flush_emitted, Flush};
use base_mlx::tokenizer::{Piece, Tokenizer, Utf8TokenDecoder};

/// Tokens 0 to 3 are the bytes `h`, `i`, 0xC3 and 0xA9; the last two make `é`.
const BYTES: &str = r#"{"version":"1.0","truncation":null,"padding":null,
    "added_tokens":[{"id":4,"content":"<end>","single_word":false,"lstrip":false,
        "rstrip":false,"normalized":false,"special":true}],
    "normalizer":null,
    "pre_tokenizer":{"type":"ByteLevel","add_prefix_space":false,"trim_offsets":true,
        "use_regex":true},
    "post_processor":null,
    "decoder":{"type":"ByteLevel","add_prefix_space":true,"trim_offsets":true,"use_regex":true},
    "model":{"type":"BPE","dropout":null,"unk_token":null,"continuing_subword_prefix":null,
        "end_of_word_suffix":null,"fuse_unk":false,"byte_fallback":false,
        "vocab":{"h":0,"i":1,"Ã":2,"©":3},"merges":[]}}"#;

/// Whole words.
const WORDS: &str = r#"{"version":"1.0","truncation":null,"padding":null,"added_tokens":[],
    "normalizer":null,"pre_tokenizer":{"type":"WhitespaceSplit"},"post_processor":null,
    "decoder":null,
    "model":{"type":"WordLevel","vocab":{"hello":0,"world":1,"[UNK]":2},"unk_token":"[UNK]"}}"#;

fn tokenizer(json: &str) -> Tokenizer {
    Tokenizer::from_json(json).unwrap()
}

fn text_of(p: Option<Piece>) -> Option<(String, u32)> {
    p.map(|p| (p.text, p.token))
}

#[test]
fn a_tokenizer_encodes_and_decodes() {
    let t = tokenizer(WORDS);
    assert_eq!(t.encode("world hello", false).unwrap(), vec![1, 0]);
    assert_eq!(t.encode("hello there", true).unwrap(), vec![0, 2]);
    assert_eq!(t.decode(&[1, 0], false).unwrap(), "world hello");
    assert_eq!(t.decode(&[], false).unwrap(), "");
    let b = tokenizer(BYTES);
    assert_eq!(b.encode("hi\u{e9}", false).unwrap(), vec![0, 1, 2, 3]);
    assert_eq!(b.decode(&[2, 3], false).unwrap(), "\u{e9}");
    assert_eq!(b.decode(&[2], false).unwrap(), "\u{fffd}");
}

#[test]
fn special_tokens_are_skipped_on_request() {
    let t = tokenizer(BYTES);
    assert_eq!(t.decode(&[0, 4], false).unwrap(), "h<end>");
    assert_eq!(t.decode(&[0, 4], true).unwrap(), "h");
}

#[test]
fn what_is_no_tokenizer_is_rejected() {
    for json in ["", "{}", "[1]"] {
        match Tokenizer::from_json(json) {
            Ok(_) => panic!("accepted {json}"),
            Err(e) => assert!(e.message().starts_with("tokenizer: ")),
        }
    }
}

/// The description of bytes with some parts of it replaced.
fn with_parts(parts: &[(&str, &str)]) -> String {
    let mut d: serde_json::Value = serde_json::from_str(BYTES).unwrap();
    for (key, part) in parts {
        d[*key] = serde_json::from_str(part).unwrap();
    }
    d.to_string()
}

fn with_part(key: &str, part: &str) -> String {
    with_parts(&[(key, part)])
}

fn rejection(json: &str) -> String {
    match Tokenizer::from_json(json) {
        Ok(_) => panic!("accepted {json}"),
        Err(e) => e.message(),
    }
}

const UNSUPPORTED: &str = "tokenizer: unsupported tokenizer description";

/// A pattern that is a regular expression.
fn regex(pattern: &str) -> String {
    format!(r#"{{"Regex":{}}}"#, serde_json::Value::from(pattern))
}

/// A step that replaces what matches a pattern.
fn replace(pattern: &str, content: &str) -> String {
    format!(r#"{{"type":"Replace","pattern":{pattern},"content":"{content}"}}"#)
}

/// A step that takes what matches a regular expression out of a text.
fn split(pattern: &str) -> String {
    let pattern = regex(pattern);
    format!(r#"{{"type":"Split","pattern":{pattern},"behavior":"Removed","invert":false}}"#)
}

/// The token `<end>`, and whether it strips spaces and is normalized.
fn end_token(lstrip: bool, rstrip: bool, normalized: bool) -> String {
    format!(
        r#"[{{"id":4,"content":"<end>","single_word":false,"lstrip":{lstrip},
            "rstrip":{rstrip},"normalized":{normalized},"special":true}}]"#
    )
}

fn truncation(max_length: u64, stride: u64) -> String {
    format!(
        r#"{{"direction":"Right","max_length":{max_length},"strategy":"LongestFirst",
            "stride":{stride}}}"#
    )
}

fn padding(strategy: &str, multiple: &str) -> String {
    format!(
        r#"{{"strategy":{strategy},"direction":"Right","pad_to_multiple_of":{multiple},
            "pad_id":0,"pad_type_id":0,"pad_token":"h"}}"#
    )
}

const TEMPLATE: &str = r#"{"type":"TemplateProcessing","single":[
    {"SpecialToken":{"id":"<end>","type_id":0}},{"Sequence":{"id":"A","type_id":0}}],
    "pair":[{"Sequence":{"id":"A","type_id":0}},{"Sequence":{"id":"B","type_id":0}}],
    "special_tokens":{"<end>":{"id":"<end>","ids":[4],"tokens":["<end>"]}}}"#;

#[test]
fn descriptions_that_cannot_be_run_are_rejected() {
    let most = u64::MAX.to_string();
    let fixed = format!(r#"{{"Fixed":{most}}}"#);
    let cases = [
        ("truncation", truncation(2, 5)),
        ("truncation", truncation(2, 2)),
        ("padding", padding(&fixed, "null")),
        ("padding", padding("\"BatchLongest\"", &most)),
        ("decoder", r#"{"type":"Strip","content":"hi","start":0,"stop":3}"#.to_string()),
        ("decoder", r#"{"suffix":"</w>"}"#.to_string()),
        (
            "decoder",
            r#"{"type":"Sequence","decoders":[{"type":"Fuse"},{"type":"BPEDecoder",
                "suffix":"</w>"}]}"#
                .to_string(),
        ),
        (
            "decoder",
            r#"{"type":"Sequence","decoders":[{"type":"Fuse"},{"type":"Strip","content":"h",
                "start":0,"stop":1}]}"#
                .to_string(),
        ),
        ("decoder", r#"["</w>"]"#.to_string()),
        ("decoder", replace(&regex("(h)\\1"), "i")),
        ("pre_tokenizer", split("(h|i\\1)+")),
        ("pre_tokenizer", split("\\k<9999999999>")),
        ("pre_tokenizer", split("(h)?(?(1)i|h)")),
        ("pre_tokenizer", split("(?<=\\Kh)i")),
        ("pre_tokenizer", split("(?:(?=h)){100}")),
        ("pre_tokenizer", split("(?<=(?:(?:(?:h{9}){9}){9}){9})i")),
        (
            "pre_tokenizer",
            format!(r#"{{"type":"Sequence","pretokenizers":[{}]}}"#, split("(h)\\1")),
        ),
        ("normalizer", replace(&regex("(h)\\1"), "i")),
        (
            "normalizer",
            r#"{"type":"Sequence","normalizers":[{"type":"Sequence","normalizers":[
                {"type":"Precompiled","precompiled_charsmap":""}]}]}"#
                .to_string(),
        ),
        ("normalizer", r#"{"type":"Precompiled","precompiled_charsmap":""}"#.to_string()),
        (
            "post_processor",
            r#"{"type":"TemplateProcessing","single":[{"Sequence":{"id":"B","type_id":0}}],
                "pair":[],"special_tokens":{}}"#
                .to_string(),
        ),
        (
            "post_processor",
            r#"{"type":"TemplateProcessing","single":[{"SpecialToken":{"id":"x","type_id":0}}],
                "pair":[],"special_tokens":{}}"#
                .to_string(),
        ),
        (
            "post_processor",
            r#"{"type":"Sequence","processors":[{"type":"Sequence","processors":[]}]}"#.to_string(),
        ),
        (
            "post_processor",
            format!(r#"{{"type":"Sequence","processors":[{TEMPLATE},{TEMPLATE}]}}"#),
        ),
        ("added_tokens", end_token(true, true, false)),
        (
            "model",
            r#"{"type":"BPE","continuing_subword_prefix":"ab","vocab":{"a":0,"i":1},
                "merges":["a i"]}"#
                .to_string(),
        ),
        ("model", r#"{"type":"BPE","vocab":{"a":4294967295},"merges":[]}"#.to_string()),
        ("model", format!(r#"{{"type":"Unigram","vocab":[["{}",0.0]]}}"#, "h".repeat(257))),
        ("model", "null".to_string()),
    ];
    for (key, part) in cases {
        assert_eq!(rejection(&with_part(key, &part)), UNSUPPORTED, "{key}: {part}");
    }
    for step in [
        r#"{"type":"Replace","pattern":{"String":"<end>"},"content":""}"#,
        r#"{"type":"Sequence","normalizers":[{"type":"NFC"},{"type":"Nmt"}]}"#,
    ] {
        let normalized = end_token(false, false, true);
        let d = with_parts(&[("added_tokens", &normalized), ("normalizer", step)]);
        assert_eq!(rejection(&d), UNSUPPORTED, "{step}");
    }
    let d = with_parts(&[("post_processor", TEMPLATE), ("truncation", &truncation(2, 1))]);
    assert_eq!(rejection(&d), UNSUPPORTED);
}

#[test]
fn what_is_encoded_is_shortened_and_padded() {
    let t = tokenizer(&with_part("truncation", &truncation(2, 1)));
    assert_eq!(t.encode("hih", false).unwrap(), vec![0, 1]);
    let t = tokenizer(&with_part("truncation", &truncation(0, 7)));
    assert_eq!(t.encode("hih", true).unwrap(), Vec::<u32>::new());
    let t = tokenizer(&with_parts(&[
        ("post_processor", TEMPLATE),
        ("truncation", &truncation(3, 1)),
    ]));
    assert_eq!(t.encode("hihi", true).unwrap(), vec![4, 0, 1]);
    assert_eq!(t.encode("hihi", false).unwrap(), vec![0, 1, 0]);
    let t = tokenizer(&with_part("padding", &padding(r#"{"Fixed":3}"#, "null")));
    assert_eq!(t.encode("i", false).unwrap(), vec![1, 0, 0]);
    let t = tokenizer(&with_part("padding", &padding(r#""BatchLongest""#, "2")));
    assert_eq!(t.encode("i", false).unwrap(), vec![1, 0]);
}

#[test]
fn spaces_beside_added_tokens_are_taken() {
    let t = tokenizer(&with_part("added_tokens", &end_token(true, false, false)));
    assert_eq!(t.encode("h <end>i", false).unwrap(), vec![0, 4, 1]);
    let t = tokenizer(&with_part("added_tokens", &end_token(false, true, false)));
    assert_eq!(t.encode("h<end> i", false).unwrap(), vec![0, 4, 1]);
}

#[test]
fn what_is_no_json_is_no_tokenizer() {
    for json in ["{\"decoder\":{", "", "nul"] {
        let m = serde_json::from_str::<serde_json::Value>(json).unwrap_err().to_string();
        assert_eq!(rejection(json), format!("tokenizer: {m}"));
    }
    let broken = with_part("decoder", r#"{"type":"Metaspace","replacement":7}"#);
    let m = rejection(&broken);
    assert!(m.starts_with("tokenizer: ") && m != UNSUPPORTED);
    assert!(m.contains(" at line 1 column "));
    let m = rejection(&with_part("parts", "1"));
    assert!(m.starts_with("tokenizer: expected ") && m.contains(" at line 1 column "));
}

#[test]
fn a_key_that_is_repeated_is_refused() {
    let twice = |part: &str| BYTES.replace(part, &format!("{part},{part}"));
    for part in ["\"normalizer\":null", "\"special\":true", "\"h\":0"] {
        assert_eq!(rejection(&twice(part)), UNSUPPORTED, "{part}");
    }
    let named = BYTES.replace("\"h\":0", "\"a\\\":\\\\\":4,\"h\":0");
    let t = tokenizer(&named);
    assert_eq!(t.decode(&[4, 0], false).unwrap(), "a\":\\h");
}

#[test]
fn the_parts_of_a_tokenizer_are_run() {
    let t = tokenizer(&with_part(
        "decoder",
        r#"{"type":"Sequence","decoders":[{"type":"ByteLevel","add_prefix_space":true,
            "trim_offsets":true,"use_regex":true},{"type":"Strip","content":"h","start":1,
            "stop":0}]}"#,
    ));
    assert_eq!(t.decode(&[0, 1], false).unwrap(), "i");
    let t = tokenizer(&with_part(
        "normalizer",
        r#"{"type":"Sequence","normalizers":[{"type":"NFC"},{"type":"Replace",
            "pattern":{"String":"i"},"content":"h"}]}"#,
    ));
    assert_eq!(t.encode("i", false).unwrap(), vec![0]);
    for step in [
        r#"{"type":"Replace","pattern":{"String":"i"},"content":""}"#,
        r#"{"type":"Replace","pattern":{"Regex":"i+"},"content":""}"#,
    ] {
        let t = tokenizer(&with_part("normalizer", step));
        assert_eq!(t.encode("ihi", false).unwrap(), vec![0]);
    }
    let bert = r#"{"type":"BertNormalizer","clean_text":true,"handle_chinese_chars":false,
        "strip_accents":null,"lowercase":true}"#;
    let t = tokenizer(&with_part("normalizer", bert));
    assert_eq!(t.encode("HI", false).unwrap(), vec![0, 1]);
    let t = tokenizer(&with_part("pre_tokenizer", r#"{"type":"UnicodeScripts"}"#));
    assert_eq!(t.encode("hi", false).unwrap(), vec![0, 1]);
    let t = tokenizer(&with_part(
        "pre_tokenizer",
        r#"{"type":"Sequence","pretokenizers":[{"type":"Split","pattern":{"Regex":"i"},
            "behavior":"Removed","invert":false},{"type":"ByteLevel","add_prefix_space":false,
            "trim_offsets":true,"use_regex":false}]}"#,
    ));
    assert_eq!(t.encode("hih", false).unwrap(), vec![0, 0]);
    let byte_level = r#"{"type":"ByteLevel","add_prefix_space":true,"trim_offsets":false,
        "use_regex":true}"#;
    let sequence = format!(r#"{{"type":"Sequence","processors":[{byte_level},{TEMPLATE}]}}"#);
    let t = tokenizer(&with_part("post_processor", &sequence));
    assert_eq!(t.encode("hi", true).unwrap(), vec![4, 0, 1]);
    assert_eq!(t.encode("hi", false).unwrap(), vec![0, 1]);
    let bert = r#"{"type":"BertProcessing","sep":["h",0],"cls":["<end>",4]}"#;
    let t = tokenizer(&with_part("post_processor", bert));
    assert_eq!(t.encode("i", true).unwrap(), vec![4, 1, 0]);
    let pieces = r###"{"type":"WordPiece","unk_token":"[U]","continuing_subword_prefix":"##",
        "max_input_chars_per_word":9,"vocab":{"h":0,"##i":1,"[U]":2}}"###;
    let t = tokenizer(&with_part("model", pieces));
    assert_eq!(t.encode("hi", false).unwrap(), vec![0, 1]);
}

#[test]
fn decoders_run_where_they_can() {
    let w = "</w>";
    let vocab = format!(
        r#"{{"type":"WordLevel","vocab":{{"a":0,"b{w}":1,"x":2,"xx":3,"xax":4,"":5}},
            "unk_token":"a"}}"#
    );
    let undecodable = |t: &Tokenizer, ids: &[u32]| t.decode(ids, false).unwrap_err().message();
    let joined = format!(r#"{{"type":"BPEDecoder","suffix":"{w}"}}"#);
    let t = tokenizer(&with_parts(&[
        ("model", &vocab),
        ("decoder", &joined),
        ("added_tokens", &end_token(false, false, false).replace(":4", ":6")),
    ]));
    assert_eq!(t.decode(&[0, 1, 0, 1], false).unwrap(), "ab ab");
    assert_eq!(t.decode(&[99, 0], false).unwrap(), "a");
    assert_eq!(undecodable(&t, &[]), "tokenizer: tokens cannot be decoded");
    assert_eq!(undecodable(&t, &[99]), "tokenizer: tokens cannot be decoded");
    assert_eq!(t.decode(&[6], false).unwrap(), "<end>");
    let skipped = t.decode(&[6], true).unwrap_err().message();
    assert_eq!(skipped, "tokenizer: tokens cannot be decoded");
    let strip = r#"{"type":"Strip","content":"x","start":1,"stop":1}"#;
    let fused = format!(r#"{{"type":"Sequence","decoders":[{strip},{{"type":"Fuse"}}]}}"#);
    for decoder in [strip, &fused] {
        let parts = [("model", vocab.as_str()), ("decoder", decoder), ("added_tokens", "[]")];
        let t = tokenizer(&with_parts(&parts));
        assert_eq!(t.decode(&[0, 4, 3], false).unwrap(), "aa");
        assert_eq!(t.decode(&[], false).unwrap(), "");
        assert_eq!(undecodable(&t, &[2]), "tokenizer: tokens cannot be decoded");
        assert_eq!(undecodable(&t, &[0, 5]), "tokenizer: tokens cannot be decoded");
    }
}

#[test]
fn regular_expressions_split_a_text() {
    let digits = r"(?i:'s|'t)|[^\r\n\p{L}\p{N}]?\p{L}+|\p{N}{1,3}|\s+(?!\S)|\s+";
    let isolated = split(digits).replace("Removed", "Isolated");
    let model = r#"{"type":"WordLevel","vocab":{"1":0,"123":1,"ab":2," ab":3,"'S":4},
        "unk_token":"1"}"#;
    let parts = [("model", model), ("pre_tokenizer", isolated.as_str()), ("added_tokens", "[]")];
    let t = tokenizer(&with_parts(&parts));
    assert_eq!(t.encode("ab123123'S ab", false).unwrap(), vec![2, 1, 1, 4, 3]);
    let t = tokenizer(&with_part("pre_tokenizer", &split("h(?=i)")));
    assert_eq!(t.encode("hih", false).unwrap(), vec![1, 0]);
    let t = tokenizer(&with_part("normalizer", &replace(&regex("h{2,3}"), "i")));
    assert_eq!(t.encode("hhhh", false).unwrap(), vec![1, 0]);
    let t = tokenizer(&with_part("decoder", &replace(&regex("^h"), "i")));
    assert_eq!(t.decode(&[0, 1], false).unwrap(), "ii");
    let nested = format!(
        r#"{{"type":"Sequence","normalizers":[{{"type":"Sequence","normalizers":[{}]}}]}}"#,
        replace(r#"{"String":"h"}"#, "i"),
    );
    let t = tokenizer(&with_part("normalizer", &nested));
    assert_eq!(t.encode("hi", false).unwrap(), vec![1, 1]);
}

#[test]
fn empty_matches_split_nothing_off() {
    for pattern in ["", "h*", "(?=i)", "\\b", "$"] {
        for behavior in
            ["Removed", "Isolated", "MergedWithPrevious", "MergedWithNext", "Contiguous"]
        {
            let step = split(pattern).replace("Removed", behavior);
            for step in [step.replace("false", "true"), step] {
                let t = tokenizer(&with_part("pre_tokenizer", &step));
                assert!(t.encode("hih\u{e9}h", false).is_ok(), "{pattern} {step}");
            }
        }
        let t = tokenizer(&with_part("normalizer", &replace(&regex(pattern), "")));
        assert!(t.encode("hih\u{e9}h", false).is_ok(), "{pattern}");
        let full = with_part("normalizer", &replace(&regex(pattern), "i"));
        assert_eq!(rejection(&full), UNSUPPORTED, "{pattern}");
    }
    for pattern in ["h+", "\\x68", "(?:h)", "\\bh", "h|i", "h{0,2}", "^h", "h?"] {
        let d = with_part("normalizer", &replace(&regex(pattern), "i"));
        assert_eq!(Tokenizer::from_json(&d).is_ok(), pattern == "h+", "{pattern}");
    }
    for step in [&replace(r#"{"String":""}"#, "i"), r#"{"type":"Prepend","prepend":""}"#] {
        assert_eq!(rejection(&with_part("normalizer", step)), UNSUPPORTED);
    }
    let t = tokenizer(&with_part("normalizer", r#"{"type":"Prepend","prepend":"i"}"#));
    assert_eq!(t.encode("h", false).unwrap(), vec![1, 0]);
}

#[test]
fn a_search_that_takes_too_long_ends() {
    let t = tokenizer(&with_part("pre_tokenizer", &split("(?:h+)+(?=i)")));
    let text = "h".repeat(40);
    assert_eq!(t.encode(&text, false).unwrap(), vec![0; 40]);
    assert_eq!(t.encode("hhi", false).unwrap(), vec![1]);
}

#[test]
fn models_of_every_kind_are_run() {
    let unigram = r#"{"type":"Unigram","unk_id":0,"byte_fallback":false,
        "vocab":[["<u>",-9.0],["h",-2.0],["i",-2.0],["hi",-1.0]]}"#;
    let t = tokenizer(&with_parts(&[("model", unigram), ("added_tokens", "[]")]));
    assert_eq!(t.encode("hihh", false).unwrap(), vec![3, 1, 1]);
    assert_eq!(t.encode("x", false).unwrap(), vec![0]);
    let prefixed = r###"{"type":"BPE","dropout":null,"unk_token":null,
        "continuing_subword_prefix":"##","end_of_word_suffix":null,"fuse_unk":false,
        "byte_fallback":false,"vocab":{"h":0,"##i":1,"hi":2},"merges":MERGES}"###;
    for merges in [r###"["h ##i"]"###, r###"[["h","##i"]]"###] {
        let t = tokenizer(&with_parts(&[
            ("model", &prefixed.replace("MERGES", merges)),
            ("added_tokens", "[]"),
        ]));
        assert_eq!(t.encode("hi", false).unwrap(), vec![2]);
        assert_eq!(t.encode("h", false).unwrap(), vec![0]);
    }
}

/// Flushes the tokens at these lengths in turn.
fn flushed(t: &Tokenizer, tokens: &[u32], points: &[usize]) -> String {
    let mut text = String::new();
    for &n in points {
        flush_emitted(t, &tokens[..n], &mut text).unwrap();
    }
    text
}

#[test]
fn flushing_and_streaming_show_the_same_text() {
    let t = tokenizer(BYTES);
    let tokens = t.encode("h\u{e9}ih\u{e9}", false).unwrap();
    let mut d = Utf8TokenDecoder::new();
    for &id in &tokens {
        d.push(&t, id).unwrap();
    }
    let streamed = d.finish(&t).unwrap().0;
    assert_eq!(streamed, "h\u{e9}ih\u{e9}");
    let n = tokens.len();
    let every: Vec<usize> = (1..=n).collect();
    for points in [vec![n], vec![1, 2, 4, n], vec![2, 2, n], every] {
        assert_eq!(flushed(&t, &tokens, &points), streamed);
    }
}

fn streamed(t: &Tokenizer, tokens: &[u32]) -> String {
    let mut d = Utf8TokenDecoder::new();
    for &id in tokens {
        d.push(t, id).unwrap();
    }
    d.finish(t).unwrap().0
}

#[test]
fn a_reply_that_ends_inside_a_character() {
    let t = tokenizer(BYTES);
    assert_eq!(flushed(&t, &[0, 2], &[1, 2]), "h");
    assert_eq!(streamed(&t, &[0, 2]), "h");
    assert_eq!(flushed(&t, &[0, 2, 2], &[1, 2, 3]), "h\u{fffd}");
    assert_eq!(streamed(&t, &[0, 2, 2]), "h");
    assert_eq!(streamed(&t, &[2, 2, 0, 2]), "\u{fffd}\u{fffd}h");
}

#[test]
fn a_character_is_streamed_when_it_is_complete() {
    let t = tokenizer(BYTES);
    let mut d = Utf8TokenDecoder::new();
    assert_eq!(text_of(d.push(&t, 0).unwrap()), Some(("h".to_string(), 0)));
    assert_eq!(text_of(d.push(&t, 2).unwrap()), None);
    assert_eq!(text_of(d.push(&t, 3).unwrap()), Some(("\u{e9}".to_string(), 3)));
    assert_eq!(text_of(d.push(&t, 1).unwrap()), Some(("i".to_string(), 1)));
    let (text, last) = d.finish(&t).unwrap();
    assert_eq!(text, "h\u{e9}i");
    assert!(last.is_none());
}

#[test]
fn an_unfinished_character_is_dropped_at_the_end() {
    let t = tokenizer(BYTES);
    let mut d = Utf8TokenDecoder::new();
    d.push(&t, 0).unwrap();
    d.push(&t, 2).unwrap();
    let (text, last) = d.finish(&t).unwrap();
    assert_eq!(text, "h");
    assert!(last.is_none());
}

#[test]
fn the_decisions_of_the_decoder() {
    let mut d = Utf8TokenDecoder::new();
    assert_eq!(text_of(d.settle("ab".to_string(), 7)), Some(("ab".to_string(), 7)));
    assert_eq!(text_of(d.settle(String::new(), 8)), None);
    assert_eq!(text_of(d.settle("c\u{fffd}".to_string(), 9)), None);
    assert_eq!(text_of(d.settle("\u{fffd}c".to_string(), 9)), Some(("\u{fffd}c".to_string(), 9)));
    let (text, last) = d.conclude("rest".to_string());
    assert_eq!(text, "ab\u{fffd}c");
    assert!(last.is_none());
}

#[test]
fn what_was_kept_back_is_the_last_piece() {
    let t = tokenizer(BYTES);
    let mut d = Utf8TokenDecoder::new();
    assert!(d.push(&t, 2).unwrap().is_none());
    let (text, last) = d.conclude("\u{e9}".to_string());
    assert_eq!(text, "\u{e9}");
    assert_eq!(text_of(last), Some(("\u{e9}".to_string(), 0)));
    let mut d = Utf8TokenDecoder::new();
    assert!(d.push(&t, 2).unwrap().is_none());
    let (text, last) = d.conclude("a\u{fffd}b".to_string());
    assert_eq!(text, "");
    assert!(last.is_none());
}

#[test]
fn the_pieces_make_the_text() {
    let t = tokenizer(BYTES);
    let tokens = t.encode("h\u{e9}\u{e9}ih\u{e9}", false).unwrap();
    let mut d = Utf8TokenDecoder::new();
    let mut pieces = String::new();
    for id in tokens {
        if let Some(p) = d.push(&t, id).unwrap() {
            assert!(!p.text.is_empty() && !p.text.ends_with('\u{fffd}'));
            pieces.push_str(&p.text);
        }
    }
    assert_eq!(pieces, "h\u{e9}\u{e9}ih\u{e9}");
    assert_eq!(d.finish(&t).unwrap().0, pieces);
}

#[test]
fn a_flush_shows_what_is_new() {
    let mut text = "ab".to_string();
    assert!(can_flush("abcd", &text));
    let p = flush_decoded("abcd", &mut text, 5);
    assert_eq!(text_of(p), Some(("cd".to_string(), 5)));
    assert_eq!(text, "abcd");
    assert_eq!(text_of(flush_decoded("abcd", &mut text, 6)), None);
    assert_eq!(text_of(flush_decoded("abcd\u{fffd}", &mut text, 6)), None);
    assert_eq!(
        text_of(flush_decoded("abcd\u{e9}", &mut text, 7)),
        Some(("\u{e9}".to_string(), 7))
    );
    assert_eq!(text_of(flush_decoded("a", &mut text, 8)), None);
    assert_eq!(text, "abcd\u{e9}");
}

#[test]
fn a_flush_cannot_cut_a_character() {
    assert!(!can_flush("\u{e9}x", "a"));
    assert!(can_flush("\u{e9}x", "ab"));
    assert!(can_flush("\u{e9}", "\u{e9}"));
    assert!(can_flush("", "abc"));
}

#[test]
fn emitted_tokens_are_flushed_as_they_come() {
    let t = tokenizer(BYTES);
    let mut text = String::new();
    assert!(matches!(flush_emitted(&t, &[], &mut text).unwrap(), Flush::Nothing));
    assert!(matches!(flush_emitted(&t, &[0, 2], &mut text).unwrap(),
        Flush::Piece(Piece { text, token: 2 }) if text == "h"));
    assert!(matches!(flush_emitted(&t, &[0, 2], &mut text).unwrap(), Flush::Nothing));
    assert!(matches!(flush_emitted(&t, &[0, 2, 3, 1], &mut text).unwrap(),
        Flush::Piece(Piece { text, token: 1 }) if text == "\u{e9}i"));
    assert_eq!(text, "h\u{e9}i");
}

#[test]
fn a_torn_flush_changes_nothing() {
    let t = tokenizer(BYTES);
    let mut text = "a".to_string();
    assert!(matches!(flush_emitted(&t, &[2, 3], &mut text).unwrap(), Flush::Torn));
    assert_eq!(text, "a");
}
