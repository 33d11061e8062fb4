//! Which descriptions of a tokenizer are safe to run.
//!
//! The `tokenizers` crate reads more than it can run: some of what a
//! `tokenizer.json` may ask for makes it panic, on some text or right away. A
//! description is steady where it asks for none of that.

use vstd::prelude::*;
use vstd::string::*;

use crate::json;
use crate::json::{
    json_members, json_model, json_models, json_ref_model, member_str, JsonModel,
};
use crate::text::{chars_of, find_char, same, starts_with, views};
use crate::tokenizer_regex::{
    consuming, has_plain_regexes, is_consuming, plain_regexes, DEPTH_LIMIT,
};

verus! {

/// Token ids, and how many tokens there are, stay below this.
pub const ID_LIMIT: u64 = 0x8000_0000;

/// What is encoded is padded to fewer tokens than this.
pub const PAD_LIMIT: u64 = 0x100_0000;

/// No token of a unigram model is longer than this: taking such a model down goes as
/// deep as its longest token is long.
pub const TOKEN_LIMIT: u64 = 256;

/// What decoding asks of the tokens that it is given.
#[derive(Clone, Copy, PartialEq, Eq, Structural)]
pub enum Guard {
    /// Nothing.
    Free,
    /// That there is one.
    Filled,
    /// That from each of them up to `start` times `content` can be taken at its start,
    /// and up to `stop` times at its end.
    Strip { content: char, start: u64, stop: u64 },
}

/// Whether a part is not there.
pub open spec fn missing(part: Option<JsonModel>) -> bool {
    part is None || part == Some(JsonModel::Null)
}

/// Whether there is a text that is not empty.
pub open spec fn some_text(t: Option<Seq<char>>) -> bool {
    t matches Some(s) && s.len() > 0
}

/// Whether there is an integer of this range.
pub open spec fn some_int(d: Option<JsonModel>, limit: u64) -> bool {
    d matches Some(JsonModel::Int(n)) && 0 <= n < limit
}

/// Whether a normalizer leaves no text empty that was not: an added token that is
/// empty once it is normalized would be found everywhere, inside characters too.
pub open spec fn keeps_text(d: JsonModel) -> bool {
    let kind = d.member_text("type"@);
    ||| kind == Some("NFC"@)
    ||| kind == Some("NFD"@)
    ||| kind == Some("NFKC"@)
    ||| kind == Some("NFKD"@)
    ||| kind == Some("Lowercase"@)
    ||| kind == Some("Prepend"@)
    ||| kind == Some("ByteLevel"@)
    ||| kind == Some("Replace"@) && some_text(d.member_text("content"@))
}

/// Whether a normalizer puts nothing in before the first character of a text: what is
/// put in goes by the character before it, and a text that begins with what goes by
/// none cannot be normalized any further. One that replaces must replace what is not
/// empty, or replace it by nothing. One that puts something in front of a text takes the
/// first character for one that was put in where there is nothing to put there.
pub open spec fn steady_insertion(d: JsonModel) -> bool {
    &&& match d.member("pattern"@) {
        Some(p) => {
            ||| d.member_text("content"@) matches Some(s) && s.len() == 0
            ||| some_text(p.member_text("String"@))
            ||| p.member_text("Regex"@) matches Some(s) && consuming(s)
        },
        None => true,
    }
    &&& d.member("prepend"@) is None || some_text(d.member_text("prepend"@))
}

/// Whether a normalizer, or one that lists more of them, is nested no deeper than
/// `depth`, has no precompiled table, which may not be one, puts nothing in before the
/// first character, and keeps text where added tokens go through it.
pub open spec fn steady_normalizer(d: JsonModel, left_to_text: bool, depth: nat) -> bool
    decreases depth, 0nat,
{
    let kind = d.member_text("type"@);
    &&& d is Object
    &&& kind != Some("Precompiled"@)
    &&& d.member("precompiled_charsmap"@) is None
    &&& steady_insertion(d)
    &&& match d.member("normalizers"@) {
        Some(JsonModel::Array(steps)) => (left_to_text || kind == Some("Sequence"@)) && depth > 0
            && steady_normalizers(steps, left_to_text, (depth - 1) as nat),
        Some(_) => false,
        None => left_to_text || keeps_text(d),
    }
}

/// Whether every normalizer of a list is steady.
pub open spec fn steady_normalizers(
    steps: Seq<JsonModel>,
    left_to_text: bool,
    depth: nat,
) -> bool
    decreases depth, 1nat,
{
    forall|i: int|
        0 <= i < steps.len() ==> steady_normalizer(#[trigger] steps[i], left_to_text, depth)
}

/// Whether normalizing is missing or steady.
pub open spec fn steady_normalizing(d: Option<JsonModel>, left_to_text: bool) -> bool {
    missing(d) || (d matches Some(x) && steady_normalizer(x, left_to_text, DEPTH_LIMIT as nat))
}

/// Whether a step of decoding can be given any tokens: it takes no suffix off, which
/// it would look for in the last of them, and nothing off the end of a token, which
/// may be too short.
pub open spec fn free_step(d: JsonModel) -> bool {
    d is Object && d.member("suffix"@) is None && (d.member("stop"@) is None || d.member("stop"@)
        == Some(JsonModel::Int(0)))
}

/// What a step that strips tokens asks of them.
pub open spec fn strip_guard(d: JsonModel) -> Option<Guard> {
    match (d.member_text("content"@), d.member("start"@), d.member("stop"@)) {
        (Some(c), Some(JsonModel::Int(start)), Some(JsonModel::Int(stop))) => if c.len() == 1 && 0
            <= start < ID_LIMIT && 0 <= stop < ID_LIMIT {
            Some(Guard::Strip { content: c[0], start: start as u64, stop: stop as u64 })
        } else {
            None
        },
        _ => None,
    }
}

/// What a step of decoding asks of the tokens that it is given; nothing of the kind
/// for a step that is not run.
pub open spec fn step_guard(d: JsonModel) -> Option<Guard> {
    if free_step(d) {
        Some(Guard::Free)
    } else if d.member_text("type"@) == Some("BPEDecoder"@) && d.member("stop"@) is None {
        Some(Guard::Filled)
    } else if d.member_text("type"@) == Some("Strip"@) && d.member("suffix"@) is None {
        strip_guard(d)
    } else {
        None
    }
}

/// What a step of decoding, or a sequence of them that is nested no deeper than
/// `depth`, asks of the tokens that it is given.
pub open spec fn guard_of(d: JsonModel, depth: nat) -> Option<Guard>
    decreases depth, 0nat,
{
    if d.member_text("type"@) == Some("Sequence"@) {
        match d.member("decoders"@) {
            Some(JsonModel::Array(steps)) => if depth > 0 {
                guard_of_steps(steps, (depth - 1) as nat)
            } else {
                None
            },
            _ => None,
        }
    } else {
        step_guard(d)
    }
}

/// What the first step of a list asks, where the others, of which it cannot be told
/// what they are given, ask nothing.
pub open spec fn guard_of_steps(steps: Seq<JsonModel>, depth: nat) -> Option<Guard>
    decreases depth, 1nat,
{
    if steps.len() == 0 {
        Some(Guard::Free)
    } else if forall|i: int|
        1 <= i < steps.len() ==> guard_of(#[trigger] steps[i], depth) == Some(Guard::Free) {
        guard_of(steps[0], depth)
    } else {
        None
    }
}

/// What decoding asks of the tokens that it is given.
pub open spec fn decoding_guard(d: Option<JsonModel>) -> Option<Guard> {
    if missing(d) {
        Some(Guard::Free)
    } else {
        guard_of(d->0, DEPTH_LIMIT as nat)
    }
}

/// What a description of a tokenizer asks of the tokens that are decoded.
pub open spec fn guard_for(d: JsonModel) -> Option<Guard> {
    decoding_guard(d.member("decoder"@))
}

/// Whether a token is made of nothing but `content`.
pub open spec fn made_of(token: Seq<char>, content: char) -> bool {
    forall|i: int| 0 <= i < token.len() ==> #[trigger] token[i] == content
}

/// Whether as much as is asked for can be stripped off a token: always where there is
/// something else in it, which neither side is stripped past.
pub open spec fn strippable(token: Seq<char>, content: char, start: u64, stop: u64) -> bool {
    made_of(token, content) ==> stop + (if start < token.len() {
        start as nat
    } else {
        token.len()
    }) <= token.len()
}

/// Whether these tokens can be decoded.
pub open spec fn allows(guard: Guard, tokens: Seq<Seq<char>>) -> bool {
    match guard {
        Guard::Free => true,
        Guard::Filled => tokens.len() > 0,
        Guard::Strip { content, start, stop } => forall|i: int|
            0 <= i < tokens.len() ==> strippable(#[trigger] tokens[i], content, start, stop),
    }
}

/// Whether a vocabulary gives each of its tokens an id below the limit.
pub open spec fn steady_vocab(d: Option<JsonModel>) -> bool {
    d matches Some(JsonModel::Object(m)) && m.dom().len() < ID_LIMIT && forall|x: JsonModel|
        #[trigger] m.contains_value(x) ==> some_int(Some(x), ID_LIMIT)
}

/// Whether the first space of a text is at `k`.
pub open spec fn first_space(s: Seq<char>, k: int) -> bool {
    0 <= k < s.len() && s[k] == ' ' && forall|j: int| 0 <= j < k ==> s[j] != ' '
}

/// Whether the second token of a merge, which is a pair of tokens or a text with a
/// space between them, begins with `prefix`.
pub open spec fn continues(d: JsonModel, prefix: Seq<char>) -> bool {
    match d {
        JsonModel::Array(pair) => pair.len() == 2 && (pair[1].text() matches Some(b)
            && prefix.is_prefix_of(b)),
        JsonModel::Str(s) => exists|k: int| #[trigger]
            first_space(s, k) && prefix.is_prefix_of(s.subrange(k + 1, s.len() as int)),
        _ => false,
    }
}

/// Whether every merge of a list continues with `prefix`.
pub open spec fn steady_merges(merges: Seq<JsonModel>, prefix: Seq<char>) -> bool {
    forall|i: int| 0 <= i < merges.len() ==> continues(#[trigger] merges[i], prefix)
}

/// Whether the tokens of a byte-pair model carry no prefix inside a word, or all do
/// that a word is merged with: that many bytes are cut off them.
pub open spec fn steady_prefix(d: JsonModel) -> bool {
    missing(d.member("continuing_subword_prefix"@)) || match d.member_text(
        "continuing_subword_prefix"@,
    ) {
        Some(prefix) => prefix.len() == 0 || match d.member("merges"@) {
            Some(JsonModel::Array(merges)) => steady_merges(merges, prefix),
            _ => false,
        },
        None => false,
    }
}

/// Whether an entry of a unigram model's vocabulary begins with a token that is not
/// too long.
pub open spec fn short_token(d: JsonModel) -> bool {
    d matches JsonModel::Array(pair) && pair.len() > 0 && (pair[0].text() matches Some(s)
        && s.len() <= TOKEN_LIMIT)
}

/// Whether the vocabulary of a unigram model is not too long, and no token in it is.
pub open spec fn steady_scores(d: Option<JsonModel>) -> bool {
    d matches Some(JsonModel::Array(entries)) && entries.len() < ID_LIMIT && short_tokens(entries)
}

/// Whether every entry of a list is short.
pub open spec fn short_tokens(entries: Seq<JsonModel>) -> bool {
    forall|i: int| 0 <= i < entries.len() ==> short_token(#[trigger] entries[i])
}

/// Whether a model has a steady vocabulary and is one of whole words, one of word
/// pieces, a byte-pair model whose prefix can be cut off, or a unigram model.
pub open spec fn steady_model(d: Option<JsonModel>) -> bool {
    d matches Some(x) && {
        let kind = x.member_text("type"@);
        ||| kind == Some("WordLevel"@) && steady_vocab(x.member("vocab"@))
        ||| kind == Some("WordPiece"@) && steady_vocab(x.member("vocab"@))
        ||| kind == Some("BPE"@) && steady_vocab(x.member("vocab"@)) && steady_prefix(x)
        ||| kind == Some("Unigram"@) && steady_scores(x.member("vocab"@))
    }
}

/// Whether no token of a list has `key` set.
pub open spec fn none_set(tokens: Seq<JsonModel>, key: Seq<char>) -> bool {
    forall|i: int|
        0 <= i < tokens.len() ==> (#[trigger] tokens[i]).member(key) != Some(JsonModel::Bool(true))
}

/// Whether every token of a list says that it is not normalized.
pub open spec fn none_normalized(tokens: Seq<JsonModel>) -> bool {
    forall|i: int|
        0 <= i < tokens.len() ==> (#[trigger] tokens[i]).member("normalized"@) == Some(
            JsonModel::Bool(false),
        )
}

/// Whether the added tokens can be told apart in a text: not where some take the
/// spaces before them and some those behind, for two tokens could then lay claim to
/// one stretch.
pub open spec fn steady_added(d: Option<JsonModel>) -> bool {
    d is None || (d matches Some(JsonModel::Array(tokens)) && tokens.len() < ID_LIMIT && (none_set(
        tokens,
        "lstrip"@,
    ) || none_set(tokens, "rstrip"@)))
}

/// Whether no added token goes through the normalizer.
pub open spec fn left_to_text(d: Option<JsonModel>) -> bool {
    d is None || (d matches Some(JsonModel::Array(tokens)) && none_normalized(tokens))
}

/// Whether a piece of a template stands for the one text that is encoded, or for a
/// special token that is defined.
pub open spec fn steady_piece(d: JsonModel, special_tokens: Option<JsonModel>) -> bool {
    ||| d.member("Sequence"@) matches Some(x) && x.member_text("id"@) == Some("A"@)
    ||| d.member("SpecialToken"@) matches Some(x) && (x.member_text("id"@) matches Some(id)
        && (special_tokens matches Some(t) && t.member(id) matches Some(JsonModel::Object(_))))
}

/// Whether every piece of a list is steady.
pub open spec fn steady_pieces(pieces: Seq<JsonModel>, special_tokens: Option<JsonModel>) -> bool {
    forall|i: int| 0 <= i < pieces.len() ==> steady_piece(#[trigger] pieces[i], special_tokens)
}

/// Whether the template of a post-processor, where there is one, is made of steady
/// pieces.
pub open spec fn steady_template(d: JsonModel) -> bool {
    d.member("single"@) is None || (d.member("single"@) matches Some(JsonModel::Array(pieces))
        && steady_pieces(pieces, d.member("special_tokens"@)))
}

/// Whether a post-processor is no sequence, and its template is steady.
pub open spec fn steady_processor(d: JsonModel) -> bool {
    d is Object && d.member("processors"@) is None && steady_template(d)
}

/// Whether every post-processor of a list is steady, and none but the last has a
/// template.
pub open spec fn steady_processors(steps: Seq<JsonModel>) -> bool {
    forall|i: int|
        0 <= i < steps.len() ==> steady_processor(#[trigger] steps[i]) && (i + 1 < steps.len()
            ==> steps[i].member("single"@) is None)
}

/// Whether post-processing is missing, a step that is run, or a sequence of such
/// steps.
pub open spec fn steady_processing(d: Option<JsonModel>) -> bool {
    ||| missing(d)
    ||| d matches Some(x) && steady_processor(x)
    ||| d matches Some(x) && x.member("sep"@) is None && x.member("single"@) is None && (x.member(
        "processors"@,
    ) matches Some(JsonModel::Array(steps)) && steady_processors(steps))
}

/// How many tokens a piece of a template adds to a text.
pub open spec fn added_by_piece(d: JsonModel, special_tokens: Option<JsonModel>) -> nat {
    match (d.member("SpecialToken"@), special_tokens) {
        (Some(x), Some(t)) => match x.member_text("id"@) {
            Some(id) => match t.member(id) {
                Some(s) => match s.member("ids"@) {
                    Some(JsonModel::Array(ids)) => ids.len(),
                    _ => 0,
                },
                None => 0,
            },
            None => 0,
        },
        _ => 0,
    }
}

/// How many tokens the pieces of a template add to a text.
pub open spec fn added_by_pieces(pieces: Seq<JsonModel>, special_tokens: Option<JsonModel>) -> nat
    decreases pieces.len(),
{
    if pieces.len() == 0 {
        0
    } else {
        added_by_pieces(pieces.drop_last(), special_tokens) + added_by_piece(
            pieces.last(),
            special_tokens,
        )
    }
}

/// How many tokens a post-processor adds to a text, at most: those of its template,
/// and two where it has separators.
pub open spec fn added_by_processor(d: JsonModel) -> nat {
    let separators: nat = if d.member("sep"@) is Some {
        2
    } else {
        0
    };
    separators + match d.member("single"@) {
        Some(JsonModel::Array(pieces)) => added_by_pieces(pieces, d.member("special_tokens"@)),
        _ => 0,
    }
}

/// How many tokens a list of post-processors adds to a text, at most.
pub open spec fn added_by_processors(steps: Seq<JsonModel>) -> nat
    decreases steps.len(),
{
    if steps.len() == 0 {
        0
    } else {
        added_by_processors(steps.drop_last()) + added_by_processor(steps.last())
    }
}

/// How many tokens post-processing adds to a text, at most.
pub open spec fn added_by_processing(d: Option<JsonModel>) -> nat {
    match d {
        Some(x) => match x.member("processors"@) {
            Some(JsonModel::Array(steps)) => added_by_processors(steps),
            _ => added_by_processor(x),
        },
        None => 0,
    }
}

/// Whether a text is never shortened, or to a length that leaves room for the stride
/// and for the tokens that are added, or to nothing where none are.
pub open spec fn steady_truncation(d: Option<JsonModel>, added: nat) -> bool {
    missing(d) || (d matches Some(x) && added < ID_LIMIT && (x.member("max_length"@) matches Some(
        JsonModel::Int(most),
    ) && (x.member("stride"@) matches Some(JsonModel::Int(stride)) && 0 <= stride <= u64::MAX && 0
        <= most <= u64::MAX && (stride + added < most || most == 0 && added == 0))))
}

/// Whether what is encoded is never padded, or to a length below the limit.
pub open spec fn steady_padding(d: Option<JsonModel>) -> bool {
    missing(d) || (d matches Some(x) && (missing(x.member("pad_to_multiple_of"@)) || some_int(
        x.member("pad_to_multiple_of"@),
        PAD_LIMIT,
    )) && (x.member("strategy"@) matches Some(s) && (s.text() == Some("BatchLongest"@) || some_int(
        s.member("Fixed"@),
        PAD_LIMIT,
    ))))
}

/// Whether the regular expressions of a part, where it is there, are plain.
pub open spec fn plain_part(d: Option<JsonModel>) -> bool {
    d matches Some(x) ==> plain_regexes(x, DEPTH_LIMIT as nat)
}

/// Whether the description of a tokenizer is one of those that are run. Of how a text
/// is split before it is looked up nothing is asked but that its regular expressions
/// are plain.
pub open spec fn steady(d: JsonModel) -> bool {
    &&& steady_truncation(
        d.member("truncation"@),
        added_by_processing(d.member("post_processor"@)),
    )
    &&& steady_padding(d.member("padding"@))
    &&& steady_added(d.member("added_tokens"@))
    &&& steady_normalizing(d.member("normalizer"@), left_to_text(d.member("added_tokens"@)))
    &&& guard_for(d) is Some
    &&& steady_processing(d.member("post_processor"@))
    &&& steady_model(d.member("model"@))
    &&& plain_part(d.member("normalizer"@))
    &&& plain_part(d.member("pre_tokenizer"@))
    &&& plain_part(d.member("decoder"@))
}

/// Whether the member `key` is missing.
fn is_missing(v: &serde_json::Value, key: &str) -> (r: bool)
    ensures
        r == missing(json_model(*v).member(key@)),
{
    match json::value_get(v, key) {
        Some(x) => json::value_is_null(x),
        None => true,
    }
}

/// Whether the member `key` is this text.
fn is_text(v: &serde_json::Value, key: &str, text: &str) -> (r: bool)
    ensures
        r == (json_model(*v).member_text(key@) == Some(text@)),
{
    match member_str(v, key) {
        Some(s) => same(s, text),
        None => false,
    }
}

/// Whether the member `key` is an integer below `limit`.
fn is_some_int(v: &serde_json::Value, key: &str, limit: u64) -> (r: bool)
    ensures
        r == some_int(json_model(*v).member(key@), limit),
{
    match json::value_get(v, key) {
        Some(x) => match json::value_as_u64(x) {
            Some(n) => n < limit,
            None => false,
        },
        None => false,
    }
}

/// Whether a normalizer leaves no text empty that was not.
fn is_keeping_text(v: &serde_json::Value) -> (r: bool)
    ensures
        r == keeps_text(json_model(*v)),
{
    let kind = match member_str(v, "type") {
        Some(kind) => kind,
        None => return false,
    };
    if same(kind, "Replace") {
        if let Some(s) = member_str(v, "content") {
            if !s.is_empty() {
                return true;
            }
        }
    }
    same(kind, "NFC") || same(kind, "NFD") || same(kind, "NFKC") || same(kind, "NFKD") || same(
        kind,
        "Lowercase",
    ) || same(kind, "Prepend") || same(kind, "ByteLevel")
}

/// Whether a normalizer puts nothing in before the first character of a text.
fn is_steady_insertion(v: &serde_json::Value) -> (r: bool)
    ensures
        r == steady_insertion(json_model(*v)),
{
    if json::value_get(v, "prepend").is_some() {
        match member_str(v, "prepend") {
            Some(s) => {
                if s.is_empty() {
                    return false;
                }
            },
            None => return false,
        }
    }
    let p = match json::value_get(v, "pattern") {
        Some(p) => p,
        None => return true,
    };
    if let Some(s) = member_str(v, "content") {
        if s.is_empty() {
            return true;
        }
    }
    if let Some(s) = member_str(p, "String") {
        if !s.is_empty() {
            return true;
        }
    }
    match member_str(p, "Regex") {
        Some(s) => is_consuming(s),
        None => false,
    }
}

/// Whether a normalizer is steady.
fn is_steady_normalizer(v: &serde_json::Value, left_to_text: bool, depth: u64) -> (r: bool)
    ensures
        r == steady_normalizer(json_model(*v), left_to_text, depth as nat),
    decreases depth, 1nat,
{
    if json::value_as_object(v).is_none() || is_text(v, "type", "Precompiled") || json::value_get(
        v,
        "precompiled_charsmap",
    ).is_some() || !is_steady_insertion(v) {
        return false;
    }
    match json::value_get(v, "normalizers") {
        Some(list) => match json::value_as_array(list) {
            Some(steps) => (left_to_text || is_text(v, "type", "Sequence")) && depth > 0
                && are_steady_normalizers(steps, left_to_text, depth - 1),
            None => false,
        },
        None => left_to_text || is_keeping_text(v),
    }
}

/// Whether every normalizer of a list is steady.
fn are_steady_normalizers(
    steps: &Vec<serde_json::Value>,
    left_to_text: bool,
    depth: u64,
) -> (r: bool)
    ensures
        r == steady_normalizers(json_models(steps@), left_to_text, depth as nat),
    decreases depth, 2nat,
{
    let ghost all = json_models(steps@);
    let mut i: usize = 0;
    while i < steps.len()
        invariant
            i <= steps@.len(),
            all == json_models(steps@),
            forall|j: int|
                0 <= j < i ==> steady_normalizer(#[trigger] all[j], left_to_text, depth as nat),
        decreases steps@.len() - i,
    {
        assert(all[i as int] == json_model(steps@[i as int]));
        if !is_steady_normalizer(&steps[i], left_to_text, depth) {
            return false;
        }
        i = i + 1;
    }
    true
}

/// Whether a step of decoding can be given any tokens.
fn is_free_step(v: &serde_json::Value) -> (r: bool)
    ensures
        r == free_step(json_model(*v)),
{
    json::value_as_object(v).is_some() && json::value_get(v, "suffix").is_none() && (
    json::value_get(v, "stop").is_none() || is_some_int(v, "stop", 1))
}

/// What a step that strips tokens asks of them.
fn find_strip_guard(v: &serde_json::Value) -> (r: Option<Guard>)
    ensures
        r == strip_guard(json_model(*v)),
{
    match (member_str(v, "content"), some_number(v, "start"), some_number(v, "stop")) {
        (Some(c), Some(start), Some(stop)) => if c.unicode_len() == 1 && start < ID_LIMIT && stop
            < ID_LIMIT {
            Some(Guard::Strip { content: c.get_char(0), start, stop })
        } else {
            None
        },
        _ => None,
    }
}

/// What a step of decoding asks of the tokens that it is given.
fn find_step_guard(v: &serde_json::Value) -> (r: Option<Guard>)
    ensures
        r == step_guard(json_model(*v)),
{
    if is_free_step(v) {
        Some(Guard::Free)
    } else if is_text(v, "type", "BPEDecoder") && json::value_get(v, "stop").is_none() {
        Some(Guard::Filled)
    } else if is_text(v, "type", "Strip") && json::value_get(v, "suffix").is_none() {
        find_strip_guard(v)
    } else {
        None
    }
}

/// What a step of decoding, or a sequence of them, asks of the tokens that it is given.
fn find_guard(v: &serde_json::Value, depth: u64) -> (r: Option<Guard>)
    ensures
        r == guard_of(json_model(*v), depth as nat),
    decreases depth, 1nat,
{
    if !is_text(v, "type", "Sequence") {
        return find_step_guard(v);
    }
    match json::value_get(v, "decoders") {
        Some(list) => match json::value_as_array(list) {
            Some(steps) => if depth > 0 {
                find_guard_of_steps(steps, depth - 1)
            } else {
                None
            },
            None => None,
        },
        None => None,
    }
}

/// What the first step of a list asks, where the others ask nothing.
fn find_guard_of_steps(steps: &Vec<serde_json::Value>, depth: u64) -> (r: Option<Guard>)
    ensures
        r == guard_of_steps(json_models(steps@), depth as nat),
    decreases depth, 2nat,
{
    let ghost all = json_models(steps@);
    if steps.len() == 0 {
        return Some(Guard::Free);
    }
    let mut i: usize = 1;
    while i < steps.len()
        invariant
            1 <= i <= steps@.len(),
            all == json_models(steps@),
            forall|j: int|
                1 <= j < i ==> guard_of(#[trigger] all[j], depth as nat) == Some(Guard::Free),
        decreases steps@.len() - i,
    {
        assert(all[i as int] == json_model(steps@[i as int]));
        let free = match find_guard(&steps[i], depth) {
            Some(g) => g == Guard::Free,
            None => false,
        };
        if !free {
            return None;
        }
        i = i + 1;
    }
    assert(all[0] == json_model(steps@[0]));
    find_guard(&steps[0], depth)
}

/// Whether a token is made of nothing but `content`.
fn is_made_of(token: &str, content: char) -> (r: bool)
    ensures
        r == made_of(token@, content),
{
    let v = chars_of(token);
    let mut i: usize = 0;
    while i < v.len()
        invariant
            i <= v@.len(),
            v@ == token@,
            forall|j: int| 0 <= j < i ==> #[trigger] token@[j] == content,
        decreases v@.len() - i,
    {
        if v[i] != content {
            assert(token@[i as int] != content);
            return false;
        }
        i = i + 1;
    }
    true
}

/// Whether as much as is asked for can be stripped off a token.
fn is_strippable(token: &str, content: char, start: u64, stop: u64) -> (r: bool)
    ensures
        r == strippable(token@, content, start, stop),
{
    if !is_made_of(token, content) {
        return true;
    }
    let n = token.unicode_len() as u64;
    if start < n {
        stop <= n - start
    } else {
        stop == 0
    }
}

/// Whether these tokens can be decoded.
pub fn is_allowed(guard: Guard, tokens: &Vec<String>) -> (r: bool)
    ensures
        r == allows(guard, views(tokens@)),
{
    match guard {
        Guard::Free => true,
        Guard::Filled => tokens.len() > 0,
        Guard::Strip { content, start, stop } => {
            let ghost all = views(tokens@);
            let mut i: usize = 0;
            while i < tokens.len()
                invariant
                    i <= tokens@.len(),
                    all == views(tokens@),
                    guard == (Guard::Strip { content, start, stop }),
                    forall|j: int|
                        0 <= j < i ==> strippable(#[trigger] all[j], content, start, stop),
                decreases tokens@.len() - i,
            {
                assert(all[i as int] == tokens@[i as int]@);
                if !is_strippable(tokens[i].as_str(), content, start, stop) {
                    return false;
                }
                i = i + 1;
            }
            true
        },
    }
}

/// Whether a vocabulary gives each of its tokens an id below the limit.
fn is_steady_vocab(v: &serde_json::Value) -> (r: bool)
    ensures
        r == steady_vocab(Some(json_model(*v))),
{
    let members = match json::value_as_object(v) {
        Some(members) => members,
        None => return false,
    };
    let values = json::map_values(members);
    if values.len() as u64 >= ID_LIMIT {
        return false;
    }
    let ghost m = json_members(*members);
    let mut i: usize = 0;
    while i < values.len()
        invariant
            i <= values@.len(),
            m == json_members(*members),
            json_model(*v) == JsonModel::Object(m),
            forall|x: JsonModel|
                (exists|j: int| 0 <= j < values@.len() && json_model(*#[trigger] values@[j]) == x)
                    <==> m.contains_value(x),
            forall|j: int|
                0 <= j < i ==> some_int(Some(json_model(*#[trigger] values@[j])), ID_LIMIT),
        decreases values@.len() - i,
    {
        let ghost x = json_model(*values@[i as int]);
        assert(m.contains_value(x));
        let fits = match json::value_as_u64(values[i]) {
            Some(n) => n < ID_LIMIT,
            None => false,
        };
        if !fits {
            assert(!some_int(Some(x), ID_LIMIT));
            return false;
        }
        i = i + 1;
    }
    true
}

/// Whether the second token of a merge begins with `prefix`.
fn is_continuing(v: &serde_json::Value, prefix: &str) -> (r: bool)
    ensures
        r == continues(json_model(*v), prefix@),
{
    if let Some(pair) = json::value_as_array(v) {
        if pair.len() != 2 {
            return false;
        }
        assert(json_models(pair@)[1] == json_model(pair@[1]));
        return match json::value_as_str(&pair[1]) {
            Some(b) => starts_with(b, prefix),
            None => false,
        };
    }
    let s = match json::value_as_str(v) {
        Some(s) => s,
        None => return false,
    };
    match find_char(s, ' ') {
        Some(k) => {
            let n = s.unicode_len();
            let rest = s.substring_char(k + 1, n);
            assert(first_space(s@, k as int));
            assert(forall|j: int| #[trigger] first_space(s@, j) ==> j == k);
            starts_with(rest, prefix)
        },
        None => {
            assert forall|k: int| !(#[trigger] first_space(s@, k)) by {
                if first_space(s@, k) {
                    assert(s@.contains(s@[k]));
                }
            }
            false
        },
    }
}

/// Whether every merge of a list continues with `prefix`.
fn are_continuing(merges: &Vec<serde_json::Value>, prefix: &str) -> (r: bool)
    ensures
        r == steady_merges(json_models(merges@), prefix@),
{
    let ghost all = json_models(merges@);
    let mut i: usize = 0;
    while i < merges.len()
        invariant
            i <= merges@.len(),
            all == json_models(merges@),
            forall|j: int| 0 <= j < i ==> continues(#[trigger] all[j], prefix@),
        decreases merges@.len() - i,
    {
        assert(all[i as int] == json_model(merges@[i as int]));
        if !is_continuing(&merges[i], prefix) {
            return false;
        }
        i = i + 1;
    }
    true
}

/// Whether the prefix of a byte-pair model can be cut off.
fn is_steady_prefix(v: &serde_json::Value) -> (r: bool)
    ensures
        r == steady_prefix(json_model(*v)),
{
    if is_missing(v, "continuing_subword_prefix") {
        return true;
    }
    match member_str(v, "continuing_subword_prefix") {
        Some(prefix) => prefix.is_empty() || match json::value_get(v, "merges") {
            Some(merges) => match json::value_as_array(merges) {
                Some(merges) => are_continuing(merges, prefix),
                None => false,
            },
            None => false,
        },
        None => false,
    }
}

/// Whether an entry of a unigram model's vocabulary is short.
fn is_short_token(v: &serde_json::Value) -> (r: bool)
    ensures
        r == short_token(json_model(*v)),
{
    match json::value_as_array(v) {
        Some(pair) => {
            if pair.len() == 0 {
                return false;
            }
            assert(json_models(pair@)[0] == json_model(pair@[0]));
            match json::value_as_str(&pair[0]) {
                Some(s) => s.unicode_len() as u64 <= TOKEN_LIMIT,
                None => false,
            }
        },
        None => false,
    }
}

/// Whether every entry of a list is short.
fn are_short_tokens(entries: &Vec<serde_json::Value>) -> (r: bool)
    ensures
        r == short_tokens(json_models(entries@)),
{
    let ghost all = json_models(entries@);
    let mut i: usize = 0;
    while i < entries.len()
        invariant
            i <= entries@.len(),
            all == json_models(entries@),
            forall|j: int| 0 <= j < i ==> short_token(#[trigger] all[j]),
        decreases entries@.len() - i,
    {
        assert(all[i as int] == json_model(entries@[i as int]));
        if !is_short_token(&entries[i]) {
            return false;
        }
        i = i + 1;
    }
    true
}

/// Whether the vocabulary of a unigram model is not too long, and no token in it is.
fn are_steady_scores(v: &serde_json::Value) -> (r: bool)
    ensures
        r == steady_scores(Some(json_model(*v))),
{
    match json::value_as_array(v) {
        Some(entries) => (entries.len() as u64) < ID_LIMIT && are_short_tokens(entries),
        None => false,
    }
}

/// Whether a model is one of those that are run.
fn is_steady_model(v: &serde_json::Value) -> (r: bool)
    ensures
        r == steady_model(Some(json_model(*v))),
{
    let vocab = match json::value_get(v, "vocab") {
        Some(vocab) => vocab,
        None => return false,
    };
    if is_text(v, "type", "Unigram") && are_steady_scores(vocab) {
        return true;
    }
    if !is_steady_vocab(vocab) {
        return false;
    }
    (is_text(v, "type", "BPE") && is_steady_prefix(v)) || is_text(v, "type", "WordLevel")
        || is_text(v, "type", "WordPiece")
}

/// The truth value of the member `key`.
fn flag(v: &serde_json::Value, key: &str) -> (r: Option<bool>)
    ensures
        match r {
            Some(b) => json_model(*v).member(key@) == Some(JsonModel::Bool(b)),
            None => !(json_model(*v).member(key@) matches Some(JsonModel::Bool(_))),
        },
{
    match json::value_get(v, key) {
        Some(x) => json::value_as_bool(x),
        None => None,
    }
}

/// Whether no token of a list has `key` set.
fn are_none_set(tokens: &Vec<serde_json::Value>, key: &str) -> (r: bool)
    ensures
        r == none_set(json_models(tokens@), key@),
{
    let ghost all = json_models(tokens@);
    let mut i: usize = 0;
    while i < tokens.len()
        invariant
            i <= tokens@.len(),
            all == json_models(tokens@),
            forall|j: int|
                0 <= j < i ==> (#[trigger] all[j]).member(key@) != Some(JsonModel::Bool(true)),
        decreases tokens@.len() - i,
    {
        assert(all[i as int] == json_model(tokens@[i as int]));
        if let Some(b) = flag(&tokens[i], key) {
            if b {
                return false;
            }
        }
        i = i + 1;
    }
    true
}

/// Whether every token of a list says that it is not normalized.
fn are_none_normalized(tokens: &Vec<serde_json::Value>) -> (r: bool)
    ensures
        r == none_normalized(json_models(tokens@)),
{
    let ghost all = json_models(tokens@);
    let mut i: usize = 0;
    while i < tokens.len()
        invariant
            i <= tokens@.len(),
            all == json_models(tokens@),
            forall|j: int|
                0 <= j < i ==> (#[trigger] all[j]).member("normalized"@) == Some(
                    JsonModel::Bool(false),
                ),
        decreases tokens@.len() - i,
    {
        assert(all[i as int] == json_model(tokens@[i as int]));
        match flag(&tokens[i], "normalized") {
            Some(b) => {
                if b {
                    return false;
                }
            },
            None => {
                return false;
            },
        }
        i = i + 1;
    }
    true
}

/// Whether a piece of a template is steady.
fn is_steady_piece(v: &serde_json::Value, special_tokens: Option<&serde_json::Value>) -> (r: bool)
    ensures
        r == steady_piece(json_model(*v), json_ref_model(special_tokens)),
{
    if let Some(x) = json::value_get(v, "Sequence") {
        if is_text(x, "id", "A") {
            return true;
        }
    }
    match (json::value_get(v, "SpecialToken"), special_tokens) {
        (Some(x), Some(t)) => match member_str(x, "id") {
            Some(id) => match json::value_get(t, id) {
                Some(s) => json::value_as_object(s).is_some(),
                None => false,
            },
            None => false,
        },
        _ => false,
    }
}

/// Whether every piece of a list is steady.
fn are_steady_pieces(
    pieces: &Vec<serde_json::Value>,
    special_tokens: Option<&serde_json::Value>,
) -> (r: bool)
    ensures
        r == steady_pieces(json_models(pieces@), json_ref_model(special_tokens)),
{
    let ghost all = json_models(pieces@);
    let mut i: usize = 0;
    while i < pieces.len()
        invariant
            i <= pieces@.len(),
            all == json_models(pieces@),
            forall|j: int|
                0 <= j < i ==> steady_piece(#[trigger] all[j], json_ref_model(special_tokens)),
        decreases pieces@.len() - i,
    {
        assert(all[i as int] == json_model(pieces@[i as int]));
        if !is_steady_piece(&pieces[i], special_tokens) {
            return false;
        }
        i = i + 1;
    }
    true
}

/// Whether a post-processor is no sequence, and its template is steady.
fn is_steady_processor(v: &serde_json::Value) -> (r: bool)
    ensures
        r == steady_processor(json_model(*v)),
{
    if json::value_as_object(v).is_none() || json::value_get(v, "processors").is_some() {
        return false;
    }
    match json::value_get(v, "single") {
        Some(x) => match json::value_as_array(x) {
            Some(pieces) => are_steady_pieces(pieces, json::value_get(v, "special_tokens")),
            None => false,
        },
        None => true,
    }
}

/// Whether every post-processor of a list is steady, and none but the last has a
/// template.
fn are_steady_processors(steps: &Vec<serde_json::Value>) -> (r: bool)
    ensures
        r == steady_processors(json_models(steps@)),
{
    let ghost all = json_models(steps@);
    let mut i: usize = 0;
    while i < steps.len()
        invariant
            i <= steps@.len(),
            all == json_models(steps@),
            forall|j: int|
                0 <= j < i ==> steady_processor(#[trigger] all[j]) && (j + 1 < all.len()
                    ==> all[j].member("single"@) is None),
        decreases steps@.len() - i,
    {
        assert(all[i as int] == json_model(steps@[i as int]));
        if !is_steady_processor(&steps[i]) {
            return false;
        }
        if i < steps.len() - 1 && json::value_get(&steps[i], "single").is_some() {
            return false;
        }
        i = i + 1;
    }
    true
}

/// Whether post-processing is missing, a step that is run, or a sequence of such
/// steps.
fn is_steady_processing(v: &serde_json::Value) -> (r: bool)
    ensures
        r == steady_processing(Some(json_model(*v))),
{
    if json::value_is_null(v) || is_steady_processor(v) {
        return true;
    }
    if json::value_get(v, "sep").is_some() || json::value_get(v, "single").is_some() {
        return false;
    }
    match json::value_get(v, "processors") {
        Some(x) => match json::value_as_array(x) {
            Some(steps) => are_steady_processors(steps),
            None => false,
        },
        None => false,
    }
}

/// A count, or the limit where that is less.
pub open spec fn capped(n: nat) -> u64 {
    if n < ID_LIMIT {
        n as u64
    } else {
        ID_LIMIT
    }
}

fn add_capped(a: u64, b: u64) -> (r: u64)
    requires
        a <= ID_LIMIT,
        b <= ID_LIMIT,
    ensures
        forall|m: nat, n: nat|
            a == #[trigger] capped(m) && b == #[trigger] capped(n) ==> r == capped(m + n),
{
    if a + b < ID_LIMIT {
        a + b
    } else {
        ID_LIMIT
    }
}

/// How many tokens a piece of a template adds to a text.
fn count_piece(v: &serde_json::Value, special_tokens: Option<&serde_json::Value>) -> (r: u64)
    ensures
        r == capped(added_by_piece(json_model(*v), json_ref_model(special_tokens))),
{
    let token = match (json::value_get(v, "SpecialToken"), special_tokens) {
        (Some(x), Some(t)) => match member_str(x, "id") {
            Some(id) => json::value_get(t, id),
            None => None,
        },
        _ => None,
    };
    let ids = match token {
        Some(s) => match json::value_get(s, "ids") {
            Some(ids) => json::value_as_array(ids),
            None => None,
        },
        None => None,
    };
    match ids {
        Some(ids) => if (ids.len() as u64) < ID_LIMIT {
            ids.len() as u64
        } else {
            ID_LIMIT
        },
        None => 0,
    }
}

/// How many tokens the pieces of a template add to a text.
fn count_pieces(
    pieces: &Vec<serde_json::Value>,
    special_tokens: Option<&serde_json::Value>,
) -> (r: u64)
    ensures
        r == capped(added_by_pieces(json_models(pieces@), json_ref_model(special_tokens))),
{
    let ghost all = json_models(pieces@);
    let mut sum: u64 = 0;
    let mut i: usize = 0;
    while i < pieces.len()
        invariant
            i <= pieces@.len(),
            all == json_models(pieces@),
            sum == capped(
                added_by_pieces(all.take(i as int), json_ref_model(special_tokens)),
            ),
        decreases pieces@.len() - i,
    {
        assert(all[i as int] == json_model(pieces@[i as int]));
        assert(all.take(i + 1).drop_last() =~= all.take(i as int));
        sum = add_capped(sum, count_piece(&pieces[i], special_tokens));
        i = i + 1;
    }
    assert(all.take(i as int) =~= all);
    sum
}

/// How many tokens a post-processor adds to a text, at most.
fn count_processor(v: &serde_json::Value) -> (r: u64)
    ensures
        r == capped(added_by_processor(json_model(*v))),
{
    let separators: u64 = if json::value_get(v, "sep").is_some() {
        2
    } else {
        0
    };
    let pieces = match json::value_get(v, "single") {
        Some(x) => json::value_as_array(x),
        None => None,
    };
    let template: u64 = match pieces {
        Some(pieces) => count_pieces(pieces, json::value_get(v, "special_tokens")),
        None => 0,
    };
    let ghost d = json_model(*v);
    let ghost by_separators: nat = if d.member("sep"@) is Some {
        2
    } else {
        0
    };
    let ghost by_template: nat = match d.member("single"@) {
        Some(JsonModel::Array(list)) => added_by_pieces(list, d.member("special_tokens"@)),
        _ => 0,
    };
    assert(separators == capped(by_separators));
    assert(template == capped(by_template));
    add_capped(separators, template)
}

/// How many tokens a list of post-processors adds to a text, at most.
fn count_processors(steps: &Vec<serde_json::Value>) -> (r: u64)
    ensures
        r == capped(added_by_processors(json_models(steps@))),
{
    let ghost all = json_models(steps@);
    let mut sum: u64 = 0;
    let mut i: usize = 0;
    while i < steps.len()
        invariant
            i <= steps@.len(),
            all == json_models(steps@),
            sum == capped(added_by_processors(all.take(i as int))),
        decreases steps@.len() - i,
    {
        assert(all[i as int] == json_model(steps@[i as int]));
        assert(all.take(i + 1).drop_last() =~= all.take(i as int));
        sum = add_capped(sum, count_processor(&steps[i]));
        i = i + 1;
    }
    assert(all.take(i as int) =~= all);
    sum
}

/// How many tokens post-processing adds to a text, at most.
fn count_processing(d: Option<&serde_json::Value>) -> (r: u64)
    ensures
        r == capped(added_by_processing(json_ref_model(d))),
{
    match d {
        Some(x) => {
            let steps = match json::value_get(x, "processors") {
                Some(list) => json::value_as_array(list),
                None => None,
            };
            match steps {
                Some(steps) => count_processors(steps),
                None => count_processor(x),
            }
        },
        None => 0,
    }
}

/// The member `key`, where it is an integer that `u64` holds.
fn some_number(v: &serde_json::Value, key: &str) -> (r: Option<u64>)
    ensures
        match r {
            Some(n) => json_model(*v).member(key@) == Some(JsonModel::Int(n as int)),
            None => !(json_model(*v).member(key@) matches Some(JsonModel::Int(n)) && 0 <= n
                <= u64::MAX),
        },
{
    match json::value_get(v, key) {
        Some(x) => json::value_as_u64(x),
        None => None,
    }
}

/// Whether a text is shortened to a length that leaves room.
fn is_steady_truncation(v: &serde_json::Value, added: u64) -> (r: bool)
    ensures
        forall|n: nat|
            added == #[trigger] capped(n) ==> r == steady_truncation(Some(json_model(*v)), n),
{
    if json::value_is_null(v) {
        return true;
    }
    match (some_number(v, "max_length"), some_number(v, "stride")) {
        (Some(most), Some(stride)) => added < ID_LIMIT && (if added < most {
            stride < most - added
        } else {
            most == 0 && added == 0
        }),
        _ => false,
    }
}

/// Whether what is encoded is padded to a length below the limit.
fn is_steady_padding(v: &serde_json::Value) -> (r: bool)
    ensures
        r == steady_padding(Some(json_model(*v))),
{
    if json::value_is_null(v) {
        return true;
    }
    if !is_missing(v, "pad_to_multiple_of") && !is_some_int(v, "pad_to_multiple_of", PAD_LIMIT) {
        return false;
    }
    match json::value_get(v, "strategy") {
        Some(s) => {
            let longest = match json::value_as_str(s) {
                Some(t) => same(t, "BatchLongest"),
                None => false,
            };
            longest || is_some_int(s, "Fixed", PAD_LIMIT)
        },
        None => false,
    }
}

/// Whether the added tokens can be told apart in a text, and whether no added token
/// goes through the normalizer.
fn check_added(d: Option<&serde_json::Value>) -> (r: (bool, bool))
    ensures
        r.0 == steady_added(json_ref_model(d)),
        r.1 == left_to_text(json_ref_model(d)),
{
    let v = match d {
        Some(v) => v,
        None => return (true, true),
    };
    match json::value_as_array(v) {
        Some(tokens) => {
            let few = (tokens.len() as u64) < ID_LIMIT;
            let apart = are_none_set(tokens, "lstrip") || are_none_set(tokens, "rstrip");
            (few && apart, are_none_normalized(tokens))
        },
        None => (false, false),
    }
}

/// Whether the regular expressions of a part, where it is there, are plain.
fn is_plain_part(v: &serde_json::Value, key: &str) -> (r: bool)
    ensures
        r == plain_part(json_model(*v).member(key@)),
{
    match json::value_get(v, key) {
        Some(x) => has_plain_regexes(x, DEPTH_LIMIT),
        None => true,
    }
}

/// What the description of a tokenizer asks of the tokens that are decoded; nothing of
/// the kind where it is not one of those that are run.
pub fn steady_guard(v: &serde_json::Value) -> (r: Option<Guard>)
    ensures
        r == if steady(json_model(*v)) {
            guard_for(json_model(*v))
        } else {
            None
        },
{
    let (added, left_to_text) = check_added(json::value_get(v, "added_tokens"));
    let processor = json::value_get(v, "post_processor");
    let processing = match processor {
        Some(x) => is_steady_processing(x),
        None => true,
    };
    let count = count_processing(processor);
    let truncation = match json::value_get(v, "truncation") {
        Some(x) => is_steady_truncation(x, count),
        None => true,
    };
    let padding = match json::value_get(v, "padding") {
        Some(x) => is_steady_padding(x),
        None => true,
    };
    let model = match json::value_get(v, "model") {
        Some(x) => is_steady_model(x),
        None => false,
    };
    let normalizing = match json::value_get(v, "normalizer") {
        Some(x) => json::value_is_null(x) || is_steady_normalizer(x, left_to_text, DEPTH_LIMIT),
        None => true,
    };
    let plain = is_plain_part(v, "normalizer") && is_plain_part(v, "pre_tokenizer")
        && is_plain_part(v, "decoder");
    if !(added && processing && truncation && padding && model && normalizing && plain) {
        return None;
    }
    match json::value_get(v, "decoder") {
        Some(x) => if json::value_is_null(x) {
            Some(Guard::Free)
        } else {
            find_guard(x, DEPTH_LIMIT)
        },
        None => Some(Guard::Free),
    }
}

/// What can be stripped off a token is stripped off without the two sides meeting: however
/// much of what is asked for the token has at its start and at its end, both lie side by
/// side in it; and nowhere is more asked for at the end of a token made of nothing else
/// than it has. Of all other tokens that is not so.
pub proof fn law_what_can_be_stripped(token: Seq<char>, content: char, start: u64, stop: u64)
    ensures
        strippable(token, content, start, stop) <==> {
            &&& made_of(token, content) ==> stop <= token.len()
            &&& forall|a: int, b: int|
                #![trigger token.take(a), token.skip(b)]
                0 <= a <= start && a <= token.len() && 0 <= b <= token.len() && token.len() - b
                    <= stop && made_of(token.take(a), content) && made_of(token.skip(b), content)
                    ==> a <= b
        },
{
    let n = token.len() as int;
    if strippable(token, content, start, stop) {
        assert forall|a: int, b: int|
            #![trigger token.take(a), token.skip(b)]
            0 <= a <= start && a <= n && 0 <= b <= n && n - b <= stop && made_of(
                token.take(a),
                content,
            ) && made_of(token.skip(b), content) implies a <= b by {
            if b < a {
                assert forall|i: int| 0 <= i < n implies #[trigger] token[i] == content by {
                    if i < a {
                        assert(token.take(a)[i] == token[i]);
                    } else {
                        assert(token.skip(b)[i - b] == token[i]);
                    }
                }
            }
        }
    } else if stop <= n {
        let a = if start < n {
            start as int
        } else {
            n
        };
        let b = n - stop;
        assert(made_of(token.take(a), content));
        assert(made_of(token.skip(b), content));
        assert(!(a <= b));
    }
}

/// A text is shortened only where what is left has room for the stride and for all tokens
/// that are added to it, or where nothing is left and nothing is added.
pub proof fn law_shortened_texts_have_room(d: JsonModel, most: int, stride: int)
    requires
        steady(d),
        d.member("truncation"@) matches Some(t) && t.member("max_length"@) == Some(
            JsonModel::Int(most),
        ) && t.member("stride"@) == Some(JsonModel::Int(stride)),
    ensures
        ({
            let added = added_by_processing(d.member("post_processor"@));
            &&& 0 <= stride
            &&& most == 0 && added == 0 || most - added > stride
        }),
{
}

} // verus!
