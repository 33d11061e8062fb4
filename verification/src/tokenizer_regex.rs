//! Which regular expressions of a tokenizer are safe to run.
//!
//! The `tokenizers` crate hands them to `fancy-regex`, which stops a search that
//! takes too long and panics on a few of the expressions that it reads: one that
//! refers back to a group, or asks whether a group has matched, may read a group that
//! is only half set, and one with large counts may overflow or not come to an end. One
//! that moves the start of a match may move it into the match before.

use vstd::prelude::*;

use crate::json;
use crate::json::{json_members, json_model, json_models, member_str, JsonModel};
use crate::text::chars_of;

verus! {

/// How often an expression may say how many times a part of it is repeated.
pub const COUNT_LIMIT: u64 = 3;

/// How deep the parts of a description may be nested.
pub const DEPTH_LIMIT: u64 = 128;

/// Whether a character is a decimal digit.
pub open spec fn digit(c: char) -> bool {
    '0' <= c && c <= '9'
}

/// Whether there is a digit at `i`.
pub open spec fn digit_at(s: Seq<char>, i: int) -> bool {
    0 <= i < s.len() && digit(s[i])
}

/// Whether there is this character at `i`.
pub open spec fn char_at(s: Seq<char>, i: int, c: char) -> bool {
    0 <= i < s.len() && s[i] == c
}

/// Whether what stands at `i`, behind `(?`, opens a group without a name, one that is
/// not backtracked into, a look ahead or behind, or makes the case not matter.
pub open spec fn simple_group(s: Seq<char>, i: int) -> bool {
    ||| char_at(s, i, ':')
    ||| char_at(s, i, '=')
    ||| char_at(s, i, '!')
    ||| char_at(s, i, '>')
    ||| char_at(s, i, '<') && (char_at(s, i + 1, '=') || char_at(s, i + 1, '!'))
    ||| char_at(s, i, 'i') && (char_at(s, i + 1, ':') || char_at(s, i + 1, ')'))
}

/// Whether the character at `i` begins nothing but what is safe: no reference to a
/// group, no other start of the match, no group but a simple one, and no count of more
/// than two digits.
pub open spec fn plain_at(s: Seq<char>, i: int) -> bool {
    &&& s[i] == '\\' ==> !digit_at(s, i + 1) && !char_at(s, i + 1, 'k') && !char_at(s, i + 1, 'K')
    &&& s[i] == '(' && char_at(s, i + 1, '?') ==> simple_group(s, i + 2)
    &&& s[i] == '{' || s[i] == ',' ==> !(digit_at(s, i + 1) && digit_at(s, i + 2) && digit_at(
        s,
        i + 3,
    ))
}

/// Whether the character at `i` may open a count.
pub open spec fn counts_at(s: Seq<char>, i: int) -> bool {
    s[i] == '{' && (digit_at(s, i + 1) || char_at(s, i + 1, ','))
}

/// How many counts the first `n` characters open, at most.
pub open spec fn counts(s: Seq<char>, n: nat) -> nat
    decreases n,
{
    if n == 0 {
        0
    } else {
        counts(s, (n - 1) as nat) + if counts_at(s, n - 1) {
            1nat
        } else {
            0
        }
    }
}

/// Whether an expression is safe to run.
pub open spec fn plain(s: Seq<char>) -> bool {
    (forall|i: int| 0 <= i < s.len() ==> #[trigger] plain_at(s, i)) && counts(s, s.len())
        <= COUNT_LIMIT
}

/// Whether there is a letter or a digit at `i`.
pub open spec fn word_at(s: Seq<char>, i: int) -> bool {
    0 <= i < s.len() && (digit(s[i]) || 'a' <= s[i] && s[i] <= 'z' || 'A' <= s[i] && s[i] <= 'Z')
}

/// Whether what stands at `i`, behind a backslash, is a class of characters, a blank,
/// or a mark that stands for itself.
pub open spec fn escapes_char(s: Seq<char>, i: int) -> bool {
    ||| char_at(s, i, 's') || char_at(s, i, 'S') || char_at(s, i, 'd') || char_at(s, i, 'D')
    ||| char_at(s, i, 'w') || char_at(s, i, 'W') || char_at(s, i, 'p') || char_at(s, i, 'P')
    ||| char_at(s, i, 'n') || char_at(s, i, 'r') || char_at(s, i, 't')
    ||| 0 <= i < s.len() && !word_at(s, i) && !char_at(s, i, '<') && !char_at(s, i, '>')
}

/// Whether the character at `i` makes no part of an expression optional.
pub open spec fn needed_at(s: Seq<char>, i: int) -> bool {
    &&& s[i] != '*' && s[i] != '?' && s[i] != '|' && s[i] != '('
    &&& s[i] == '{' ==> !char_at(s, i + 1, '0') && !char_at(s, i + 1, ',')
}

/// Whether an expression matches no empty text: it begins with what matches a
/// character, and has no group, no choice and no part that may be left out.
pub open spec fn consuming(s: Seq<char>) -> bool {
    &&& s.len() > 0 && s[0] != '^' && s[0] != '$'
    &&& s[0] == '\\' ==> escapes_char(s, 1)
    &&& forall|i: int| 0 <= i < s.len() ==> #[trigger] needed_at(s, i)
}

/// Whether the parts of a list have plain expressions only.
pub open spec fn plain_parts(parts: Seq<JsonModel>, depth: nat) -> bool
    decreases depth, 1nat,
{
    forall|i: int| 0 <= i < parts.len() ==> plain_regexes(#[trigger] parts[i], depth)
}

/// Whether all regular expressions in a description that is nested no deeper than
/// `depth` are plain.
pub open spec fn plain_regexes(d: JsonModel, depth: nat) -> bool
    decreases depth, 0nat,
{
    match d {
        JsonModel::Array(parts) => depth > 0 && plain_parts(parts, (depth - 1) as nat),
        JsonModel::Object(m) => {
            &&& depth > 0
            &&& d.member_text("Regex"@) matches Some(s) ==> plain(s)
            &&& forall|x: JsonModel| #[trigger]
                m.contains_value(x) ==> plain_regexes(x, (depth - 1) as nat)
        },
        _ => true,
    }
}

fn is_digit_at(s: &Vec<char>, i: usize, ahead: usize) -> (r: bool)
    requires
        i < s@.len(),
        ahead <= 3,
    ensures
        r == digit_at(s@, i + ahead),
{
    ahead < s.len() - i && '0' <= s[i + ahead] && s[i + ahead] <= '9'
}

fn is_char_at(s: &Vec<char>, i: usize, ahead: usize, c: char) -> (r: bool)
    requires
        i < s@.len(),
        ahead <= 3,
    ensures
        r == char_at(s@, i + ahead, c),
{
    ahead < s.len() - i && s[i + ahead] == c
}

/// Whether the group that opens at `i` is a simple one.
fn is_simple_group(s: &Vec<char>, i: usize) -> (r: bool)
    requires
        i < s@.len(),
    ensures
        r == simple_group(s@, i + 2),
{
    is_char_at(s, i, 2, ':') || is_char_at(s, i, 2, '=') || is_char_at(s, i, 2, '!') || is_char_at(
        s,
        i,
        2,
        '>',
    ) || (is_char_at(s, i, 2, '<') && (is_char_at(s, i, 3, '=') || is_char_at(s, i, 3, '!')))
        || (is_char_at(s, i, 2, 'i') && (is_char_at(s, i, 3, ':') || is_char_at(s, i, 3, ')')))
}

/// Whether the character at `i` begins nothing but what is safe.
fn is_plain_at(s: &Vec<char>, i: usize) -> (r: bool)
    requires
        i < s@.len(),
    ensures
        r == plain_at(s@, i as int),
{
    let c = s[i];
    if c == '\\' {
        !is_digit_at(s, i, 1) && !is_char_at(s, i, 1, 'k') && !is_char_at(s, i, 1, 'K')
    } else if c == '(' {
        !is_char_at(s, i, 1, '?') || is_simple_group(s, i)
    } else if c == '{' || c == ',' {
        !(is_digit_at(s, i, 1) && is_digit_at(s, i, 2) && is_digit_at(s, i, 3))
    } else {
        true
    }
}

/// Whether what stands behind a backslash at the start matches a character.
fn is_escaping_char(s: &Vec<char>) -> (r: bool)
    requires
        0 < s@.len(),
    ensures
        r == escapes_char(s@, 1),
{
    if s.len() == 1 {
        return false;
    }
    let c = s[1];
    if c == 's' || c == 'S' || c == 'd' || c == 'D' || c == 'w' || c == 'W' || c == 'p' || c == 'P'
        || c == 'n' || c == 'r' || c == 't' {
        return true;
    }
    let word = ('0' <= c && c <= '9') || ('a' <= c && c <= 'z') || ('A' <= c && c <= 'Z');
    !word && c != '<' && c != '>'
}

/// Whether an expression matches no empty text.
pub fn is_consuming(pattern: &str) -> (r: bool)
    ensures
        r == consuming(pattern@),
{
    let s = chars_of(pattern);
    if s.len() == 0 || s[0] == '^' || s[0] == '$' {
        return false;
    }
    if s[0] == '\\' && !is_escaping_char(&s) {
        return false;
    }
    let mut i: usize = 0;
    while i < s.len()
        invariant
            i <= s@.len(),
            s@ == pattern@,
            forall|j: int| 0 <= j < i ==> #[trigger] needed_at(s@, j),
        decreases s@.len() - i,
    {
        let c = s[i];
        if c == '*' || c == '?' || c == '|' || c == '(' || (c == '{' && (is_char_at(&s, i, 1, '0')
            || is_char_at(&s, i, 1, ','))) {
            assert(!needed_at(s@, i as int));
            return false;
        }
        i = i + 1;
    }
    true
}

proof fn lemma_counts_grow(s: Seq<char>, m: nat, n: nat)
    requires
        m <= n,
    ensures
        counts(s, m) <= counts(s, n),
    decreases n,
{
    if m < n {
        lemma_counts_grow(s, m, (n - 1) as nat);
    }
}

/// Whether an expression is safe to run.
pub fn is_plain(pattern: &str) -> (r: bool)
    ensures
        r == plain(pattern@),
{
    let s = chars_of(pattern);
    let mut found: u64 = 0;
    let mut i: usize = 0;
    while i < s.len()
        invariant
            i <= s@.len(),
            s@ == pattern@,
            found == counts(s@, i as nat) <= COUNT_LIMIT,
            forall|j: int| 0 <= j < i ==> #[trigger] plain_at(s@, j),
        decreases s@.len() - i,
    {
        if !is_plain_at(&s, i) {
            return false;
        }
        if s[i] == '{' && (is_digit_at(&s, i, 1) || is_char_at(&s, i, 1, ',')) {
            found = found + 1;
        }
        proof {
            lemma_counts_grow(s@, (i + 1) as nat, s@.len());
        }
        i = i + 1;
        if found > COUNT_LIMIT {
            return false;
        }
    }
    true
}

/// Whether all regular expressions in a description are plain.
pub fn has_plain_regexes(v: &serde_json::Value, depth: u64) -> (r: bool)
    ensures
        r == plain_regexes(json_model(*v), depth as nat),
    decreases depth, 1nat,
{
    if let Some(parts) = json::value_as_array(v) {
        return depth > 0 && have_plain_regexes(parts, depth - 1);
    }
    let members = match json::value_as_object(v) {
        Some(members) => members,
        None => return true,
    };
    if depth == 0 {
        return false;
    }
    if let Some(s) = member_str(v, "Regex") {
        if !is_plain(s) {
            return false;
        }
    }
    let values = json::map_values(members);
    let ghost m = json_members(*members);
    let mut i: usize = 0;
    while i < values.len()
        invariant
            i <= values@.len(),
            depth > 0,
            m == json_members(*members),
            json_model(*v) == JsonModel::Object(m),
            forall|x: JsonModel|
                (exists|j: int| 0 <= j < values@.len() && json_model(*#[trigger] values@[j]) == x)
                    <==> m.contains_value(x),
            forall|j: int|
                0 <= j < i ==> plain_regexes(
                    json_model(*#[trigger] values@[j]),
                    (depth - 1) as nat,
                ),
        decreases values@.len() - i,
    {
        let ghost x = json_model(*values@[i as int]);
        assert(m.contains_value(x));
        if !has_plain_regexes(values[i], depth - 1) {
            return false;
        }
        i = i + 1;
    }
    true
}

/// Whether all regular expressions in the parts of a list are plain.
fn have_plain_regexes(parts: &Vec<serde_json::Value>, depth: u64) -> (r: bool)
    ensures
        r == plain_parts(json_models(parts@), depth as nat),
    decreases depth, 2nat,
{
    let ghost all = json_models(parts@);
    let mut i: usize = 0;
    while i < parts.len()
        invariant
            i <= parts@.len(),
            all == json_models(parts@),
            forall|j: int| 0 <= j < i ==> plain_regexes(#[trigger] all[j], depth as nat),
        decreases parts@.len() - i,
    {
        assert(all[i as int] == json_model(parts@[i as int]));
        if !has_plain_regexes(&parts[i], depth) {
            return false;
        }
        i = i + 1;
    }
    true
}

/// An expression that is safe to run refers back to no group, by number or by name, moves
/// no start of a match, asks of no group whether it has matched, names none, and has no
/// count of three digits.
pub proof fn law_safe_expressions_refer_to_no_group(s: Seq<char>, i: int)
    requires
        plain(s),
        0 <= i < s.len() - 1,
    ensures
        s[i] == '\\' ==> !('0' <= s[i + 1] && s[i + 1] <= '9') && s[i + 1] != 'k' && s[i + 1]
            != 'K',
        s[i] == '(' && s[i + 1] == '?' ==> i + 2 < s.len() && s[i + 2] != '(' && s[i + 2] != 'P'
            && s[i + 2] != '\'' && (s[i + 2] == '<' ==> i + 3 < s.len() && (s[i + 3] == '=' || s[i
            + 3] == '!')),
        s[i] == '{' && i + 3 < s.len() ==> !('0' <= s[i + 1] && s[i + 1] <= '9' && '0' <= s[i + 2]
            && s[i + 2] <= '9' && '0' <= s[i + 3] && s[i + 3] <= '9'),
{
    assert(plain_at(s, i));
}

/// An expression that matches no empty text begins at no mark of a place, and has nothing
/// in it that may be left out.
pub proof fn law_consuming_expressions_leave_nothing_out(s: Seq<char>, i: int)
    requires
        consuming(s),
        0 <= i < s.len(),
    ensures
        s[0] != '^' && s[0] != '$',
        s[i] != '*' && s[i] != '?' && s[i] != '|' && s[i] != '(',
        s[i] == '{' && i + 1 < s.len() ==> s[i + 1] != '0' && s[i + 1] != ',',
        s[0] == '\\' ==> s.len() > 1 && s[1] != 'b' && s[1] != 'B' && s[1] != 'A' && s[1] != 'z'
            && s[1] != 'G',
{
    assert(needed_at(s, i));
}

} // verus!
