//! Finding the first JSON object in a text.

use vstd::prelude::*;

use crate::json;
use crate::json::JsonModel;
use crate::structured;
use crate::text::{chars_of, same};

verus! {

/// Where in JSON a position is: outside a string, inside one, or inside one and
/// behind a backslash.
#[derive(Debug, Clone, Copy, PartialEq, Eq, Structural)]
pub enum Lex {
    Plain,
    Quoted,
    Escaped,
}

/// The position behind a character.
pub open spec fn lex_step(at: Lex, c: char) -> Lex {
    match at {
        Lex::Escaped => Lex::Quoted,
        Lex::Quoted => if c == '\\' {
            Lex::Escaped
        } else if c == '"' {
            Lex::Plain
        } else {
            Lex::Quoted
        },
        Lex::Plain => if c == '"' {
            Lex::Quoted
        } else {
            Lex::Plain
        },
    }
}

/// The position behind the first `i` characters.
pub open spec fn lexed(text: Seq<char>, i: nat) -> Lex
    decreases i,
{
    if i == 0 {
        Lex::Plain
    } else {
        lex_step(lexed(text, (i - 1) as nat), text[i - 1])
    }
}

/// Whether the brace that opens an object is at `i`.
pub open spec fn opens(text: Seq<char>, i: int) -> bool {
    0 <= i < text.len() && lexed(text, i as nat) == Lex::Plain && text[i] == '{'
}

/// Whether a brace that closes an object is at `i`.
pub open spec fn closes(text: Seq<char>, i: int) -> bool {
    0 <= i < text.len() && lexed(text, i as nat) == Lex::Plain && text[i] == '}'
}

/// How many objects are open behind the first `i` characters. A brace that
/// closes none counts for nothing.
pub open spec fn depth(text: Seq<char>, i: nat) -> nat
    decreases i,
{
    if i == 0 {
        0
    } else {
        let before = depth(text, (i - 1) as nat);
        if opens(text, i - 1) {
            before + 1
        } else if closes(text, i - 1) && before > 0 {
            (before - 1) as nat
        } else {
            before
        }
    }
}

/// Whether the first object of the text begins at `s` and ends at `e`: no other
/// opens before it, and it is open until its last brace closes it.
pub open spec fn object_at(text: Seq<char>, s: int, e: int) -> bool {
    &&& opens(text, s)
    &&& forall|j: int| 0 <= j < s ==> !#[trigger] opens(text, j)
    &&& s < e < text.len()
    &&& depth(text, (e + 1) as nat) == 0
    &&& forall|k: int| s < k <= e ==> #[trigger] depth(text, k as nat) > 0
}

/// The first balanced JSON object in the text.
pub open spec fn first_object(text: Seq<char>) -> Option<Seq<char>> {
    if exists|s: int, e: int| object_at(text, s, e) {
        let (s, e) = choose|s: int, e: int| object_at(text, s, e);
        Some(text.subrange(s, e + 1))
    } else {
        None
    }
}

proof fn lemma_nothing_open(text: Seq<char>, i: nat)
    requires
        forall|j: int| 0 <= j < i ==> !#[trigger] opens(text, j),
    ensures
        depth(text, i) == 0,
    decreases i,
{
    if i > 0 {
        lemma_nothing_open(text, (i - 1) as nat);
        assert(!opens(text, i - 1));
    }
}

proof fn lemma_one_first_object(text: Seq<char>, s: int, e: int, t: int, f: int)
    requires
        object_at(text, s, e),
        object_at(text, t, f),
    ensures
        s == t,
        e == f,
{
    if s < t {
        assert(!opens(text, s));
    }
    if t < s {
        assert(!opens(text, t));
    }
    if e < f {
        assert(depth(text, (e + 1) as nat) > 0);
    }
    if f < e {
        assert(depth(text, (f + 1) as nat) > 0);
    }
}

/// Finds the first balanced JSON object in the text, where there is one.
pub fn extract_first_json(text: &str) -> (r: Option<String>)
    ensures
        match r {
            Some(t) => first_object(text@) == Some(t@),
            None => first_object(text@) is None,
        },
{
    let chars = chars_of(text);
    let mut start: Option<usize> = None;
    let mut open: usize = 0;
    let mut at = Lex::Plain;
    let mut i: usize = 0;
    while i < chars.len()
        invariant
            chars@ == text@,
            i <= chars@.len(),
            at == lexed(text@, i as nat),
            open == depth(text@, i as nat),
            open <= i,
            match start {
                Some(s) => s < i && opens(text@, s as int) && (forall|j: int|
                    0 <= j < s ==> !#[trigger] opens(text@, j)) && (forall|k: int|
                    s < k <= i ==> #[trigger] depth(text@, k as nat) > 0),
                None => forall|j: int| 0 <= j < i ==> !#[trigger] opens(text@, j),
            },
        decreases chars@.len() - i,
    {
        let c = chars[i];
        let ghost before = open;
        proof {
            if start is None {
                lemma_nothing_open(text@, i as nat);
            }
        }
        match at {
            Lex::Escaped => {
                at = Lex::Quoted;
            },
            Lex::Quoted => {
                if c == '\\' {
                    at = Lex::Escaped;
                } else if c == '"' {
                    at = Lex::Plain;
                }
            },
            Lex::Plain => {
                if c == '"' {
                    at = Lex::Quoted;
                } else if c == '{' {
                    if start.is_none() {
                        start = Some(i);
                    }
                    open = open + 1;
                } else if c == '}' && open > 0 {
                    open = open - 1;
                    if open == 0 {
                        match start {
                            Some(s) => {
                                proof {
                                    assert(object_at(text@, s as int, i as int));
                                    let (u, v) = choose|u: int, v: int| object_at(text@, u, v);
                                    lemma_one_first_object(text@, s as int, i as int, u, v);
                                }
                                return Some(text.substring_char(s, i + 1).to_owned());
                            },
                            None => {},
                        }
                    }
                }
            },
        }
        assert(open == depth(text@, (i + 1) as nat));
        i = i + 1;
    }
    proof {
        if exists|s: int, e: int| object_at(text@, s, e) {
            let (s, e) = choose|s: int, e: int| object_at(text@, s, e);
            match start {
                Some(t) => {
                    if s < t {
                        assert(!opens(text@, s));
                    }
                    if t < s {
                        assert(!opens(text@, t as int));
                    }
                    assert(depth(text@, (e + 1) as nat) > 0);
                },
                None => {
                    assert(!opens(text@, s));
                },
            }
        }
    }
    None
}

proof fn lemma_shifted(text: Seq<char>, s: int, e: int, i: nat)
    requires
        object_at(text, s, e),
        i <= e + 1 - s,
    ensures
        lexed(text.subrange(s, e + 1), i) == lexed(text, (s + i) as nat),
        depth(text.subrange(s, e + 1), i) == depth(text, (s + i) as nat),
    decreases i,
{
    let t = text.subrange(s, e + 1);
    if i == 0 {
        lemma_nothing_open(text, s as nat);
    } else {
        lemma_shifted(text, s, e, (i - 1) as nat);
        assert(t[i - 1] == text[s + i - 1]);
    }
}

/// What is found is a balanced object on its own, and nothing but that: it opens
/// with the first character and closes with the last.
pub proof fn law_what_is_found_is_balanced(text: Seq<char>)
    requires
        first_object(text) is Some,
    ensures
        object_at(
            first_object(text).unwrap(),
            0,
            first_object(text).unwrap().len() - 1,
        ),
{
    let (s, e) = choose|s: int, e: int| object_at(text, s, e);
    let t = text.subrange(s, e + 1);
    assert(t[0] == '{');
    lemma_shifted(text, s, e, t.len());
    assert forall|k: int| 0 < k <= t.len() - 1 implies #[trigger] depth(t, k as nat) > 0 by {
        lemma_shifted(text, s, e, k as nat);
        assert(depth(text, (s + k) as nat) > 0);
    }
}

/// In what was found, the same is found again.
pub proof fn law_finding_twice_is_finding_once(text: Seq<char>)
    requires
        first_object(text) is Some,
    ensures
        first_object(first_object(text).unwrap()) == first_object(text),
{
    let t = first_object(text).unwrap();
    law_what_is_found_is_balanced(text);
    let (u, v) = choose|u: int, v: int| object_at(t, u, v);
    lemma_one_first_object(t, 0, t.len() - 1, u, v);
    assert(t.subrange(0, t.len() as int) =~= t);
}

/// Prose does not hide an object: before it anything without quotes and opening
/// braces may stand, and behind it anything.
pub proof fn law_prose_around_an_object_does_not_hide_it(
    before: Seq<char>,
    object: Seq<char>,
    after: Seq<char>,
)
    requires
        object_at(object, 0, object.len() - 1),
        forall|i: int|
            0 <= i < before.len() ==> (#[trigger] before[i]) != '"' && before[i] != '{',
    ensures
        first_object(before + object + after) == Some(object),
{
    let text = before + object + after;
    let s = before.len() as int;
    let e = s + object.len() - 1;
    lemma_plain_before(text, before, s as nat);
    assert forall|j: int| 0 <= j < s implies !#[trigger] opens(text, j) by {
        assert(text[j] == before[j]);
    }
    lemma_nothing_open(text, s as nat);
    lemma_behind(text, s, object, object.len());
    assert(text[s] == object[0]);
    assert forall|k: int| s < k <= e implies #[trigger] depth(text, k as nat) > 0 by {
        lemma_behind(text, s, object, (k - s) as nat);
        assert(depth(object, (k - s) as nat) > 0);
    }
    assert(object_at(text, s, e));
    let (u, v) = choose|u: int, v: int| object_at(text, u, v);
    lemma_one_first_object(text, s, e, u, v);
    assert(text.subrange(s, e + 1) =~= object);
}

proof fn lemma_plain_before(text: Seq<char>, before: Seq<char>, i: nat)
    requires
        i <= before.len() <= text.len(),
        forall|j: int| 0 <= j < before.len() ==> text[j] == before[j],
        forall|j: int| 0 <= j < before.len() ==> (#[trigger] before[j]) != '"',
    ensures
        lexed(text, i) == Lex::Plain,
    decreases i,
{
    if i > 0 {
        lemma_plain_before(text, before, (i - 1) as nat);
        assert(text[i - 1] == before[i - 1]);
    }
}

proof fn lemma_behind(text: Seq<char>, s: int, object: Seq<char>, i: nat)
    requires
        0 <= s,
        i <= object.len(),
        s + object.len() <= text.len(),
        forall|j: int| 0 <= j < object.len() ==> text[s + j] == #[trigger] object[j],
        lexed(text, s as nat) == Lex::Plain,
        depth(text, s as nat) == 0,
    ensures
        lexed(text, (s + i) as nat) == lexed(object, i),
        depth(text, (s + i) as nat) == depth(object, i),
    decreases i,
{
    if i > 0 {
        lemma_behind(text, s, object, (i - 1) as nat);
        assert(text[s + (i - 1)] == object[i - 1]);
    }
}

/// Whether a character is white space, in Unicode's sense.
pub open spec fn white_space(c: char) -> bool {
    let n = c as int;
    ||| 0x9 <= n <= 0xd
    ||| n == 0x20
    ||| n == 0x85
    ||| n == 0xa0
    ||| n == 0x1680
    ||| 0x2000 <= n <= 0x200a
    ||| n == 0x2028
    ||| n == 0x2029
    ||| n == 0x202f
    ||| n == 0x205f
    ||| n == 0x3000
}

fn is_white_space(c: char) -> (r: bool)
    ensures
        r == white_space(c),
{
    let n = c as u32;
    (0x9 <= n && n <= 0xd) || n == 0x20 || n == 0x85 || n == 0xa0 || n == 0x1680 || (0x2000 <= n
        && n <= 0x200a) || n == 0x2028 || n == 0x2029 || n == 0x202f || n == 0x205f || n == 0x3000
}

/// A text without the white space that it begins with.
pub open spec fn trimmed_front(s: Seq<char>) -> Seq<char>
    decreases s.len(),
{
    if s.len() > 0 && white_space(s[0]) {
        trimmed_front(s.drop_first())
    } else {
        s
    }
}

/// A text without the white space that it ends with.
pub open spec fn trimmed_back(s: Seq<char>) -> Seq<char>
    decreases s.len(),
{
    if s.len() > 0 && white_space(s.last()) {
        trimmed_back(s.drop_last())
    } else {
        s
    }
}

/// A text without the white space around it.
pub open spec fn trimmed(s: Seq<char>) -> Seq<char> {
    trimmed_back(trimmed_front(s))
}

/// A text without the white space around it.
pub fn trim(s: &str) -> (r: String)
    ensures
        r@ == trimmed(s@),
{
    let chars = chars_of(s);
    let mut i: usize = 0;
    assert(s@.skip(0) =~= s@);
    while i < chars.len() && is_white_space(chars[i])
        invariant
            chars@ == s@,
            i <= chars@.len(),
            trimmed_front(s@) == trimmed_front(s@.skip(i as int)),
        decreases chars@.len() - i,
    {
        assert(s@.skip(i as int).drop_first() =~= s@.skip(i + 1));
        i = i + 1;
    }
    let ghost front = s@.skip(i as int);
    assert(trimmed_front(s@) == front);
    let mut j: usize = chars.len();
    assert(s@.subrange(i as int, j as int) =~= front);
    while j > i && is_white_space(chars[j - 1])
        invariant
            chars@ == s@,
            i <= j <= chars@.len(),
            trimmed_back(front) == trimmed_back(s@.subrange(i as int, j as int)),
        decreases j,
    {
        let ghost now = s@.subrange(i as int, j as int);
        assert(now.last() == s@[j - 1]);
        assert(now.drop_last() =~= s@.subrange(i as int, j - 1));
        j = j - 1;
    }
    s.substring_char(i, j).to_owned()
}

/// Whether a reply is JSON, where JSON was asked for.
pub open spec fn validity(format: Option<JsonModel>, reply: Seq<char>) -> Option<bool> {
    match format {
        Some(f) => if structured::format_kind(f) == "json_object"@ || structured::format_kind(f)
            == "json_schema"@ {
            Some(json::json_parsed(trimmed(reply)) is Ok)
        } else {
            None
        },
        None => None,
    }
}

/// Whether a reply is JSON, where JSON was asked for.
pub fn json_valid(format: Option<&serde_json::Value>, reply: &str) -> (r: Option<bool>)
    ensures
        r == validity(json::json_ref_model(format), reply@),
{
    let kind = match format {
        Some(f) => match json::member_str(f, "type") {
            Some(t) => t,
            None => {
                proof {
                    reveal_strlit("");
                    reveal_strlit("json_object");
                    reveal_strlit("json_schema");
                    assert(""@.len() == 0 && "json_object"@.len() == 11 && "json_schema"@.len()
                        == 11);
                }
                return None;
            },
        },
        None => {
            return None;
        },
    };
    if same(kind, "json_object") || same(kind, "json_schema") {
        Some(json::value_parse(trim(reply).as_str()).is_ok())
    } else {
        None
    }
}

/// A reply as it is sent: where it should be JSON and is not, the first object
/// in it, if there is one.
pub open spec fn cleaned(valid: Option<bool>, reply: Seq<char>) -> Seq<char> {
    if valid == Some(false) && first_object(reply) is Some {
        first_object(reply).unwrap()
    } else {
        reply
    }
}

/// A reply as it is sent.
pub fn clean_reply(valid: Option<bool>, reply: String) -> (r: String)
    ensures
        r@ == cleaned(valid, reply@),
{
    let broken = match valid {
        Some(v) => !v,
        None => false,
    };
    if broken {
        match extract_first_json(reply.as_str()) {
            Some(t) => {
                return t;
            },
            None => {},
        }
    }
    reply
}

/// A trimmed text is a stretch of the text that neither begins nor ends with white space,
/// and all around it is white space.
pub proof fn law_trimming_takes_white_space_alone(s: Seq<char>)
    ensures
        exists|i: int, j: int|
            0 <= i <= j <= s.len() && trimmed(s) == #[trigger] s.subrange(i, j) && (forall|k: int|
                0 <= k < i ==> white_space(#[trigger] s[k])) && (forall|k: int|
                j <= k < s.len() ==> white_space(#[trigger] s[k])),
        trimmed(s).len() > 0 ==> !white_space(trimmed(s)[0]) && !white_space(trimmed(s).last()),
{
    lemma_trimmed_front(s);
    let i = choose|i: int|
        0 <= i <= s.len() && trimmed_front(s) == #[trigger] s.skip(i) && (forall|k: int|
            0 <= k < i ==> white_space(#[trigger] s[k])) && (i < s.len() ==> !white_space(s[i]));
    let front = s.skip(i);
    lemma_trimmed_back(front);
    let j = choose|j: int|
        0 <= j <= front.len() && trimmed_back(front) == #[trigger] front.take(j) && (forall|k: int|
            j <= k < front.len() ==> white_space(#[trigger] front[k])) && (j > 0
            ==> !white_space(front[j - 1]));
    assert(front.take(j) =~= s.subrange(i, i + j));
    assert forall|k: int| i + j <= k < s.len() implies white_space(#[trigger] s[k]) by {
        assert(front[k - i] == s[k]);
    }
    if j > 0 {
        assert(trimmed(s)[0] == s[i]);
        assert(trimmed(s).last() == front[j - 1]);
    }
}

proof fn lemma_trimmed_front(s: Seq<char>)
    ensures
        exists|i: int|
            0 <= i <= s.len() && trimmed_front(s) == #[trigger] s.skip(i) && (forall|k: int|
                0 <= k < i ==> white_space(#[trigger] s[k])) && (i < s.len()
                ==> !white_space(s[i])),
    decreases s.len(),
{
    if s.len() > 0 && white_space(s[0]) {
        let rest = s.drop_first();
        lemma_trimmed_front(rest);
        let i = choose|i: int|
            0 <= i <= rest.len() && trimmed_front(rest) == #[trigger] rest.skip(i) && (forall|
                k: int,
            |
                0 <= k < i ==> white_space(#[trigger] rest[k])) && (i < rest.len()
                ==> !white_space(rest[i]));
        assert(rest.skip(i) =~= s.skip(i + 1));
        assert forall|k: int| 0 <= k < i + 1 implies white_space(#[trigger] s[k]) by {
            if k > 0 {
                assert(rest[k - 1] == s[k]);
            }
        }
    } else {
        assert(s.skip(0) =~= s);
    }
}

proof fn lemma_trimmed_back(s: Seq<char>)
    ensures
        exists|j: int|
            0 <= j <= s.len() && trimmed_back(s) == #[trigger] s.take(j) && (forall|k: int|
                j <= k < s.len() ==> white_space(#[trigger] s[k])) && (j > 0 ==> !white_space(
                s[j - 1],
            )),
    decreases s.len(),
{
    if s.len() > 0 && white_space(s.last()) {
        let rest = s.drop_last();
        lemma_trimmed_back(rest);
        let j = choose|j: int|
            0 <= j <= rest.len() && trimmed_back(rest) == #[trigger] rest.take(j) && (forall|
                k: int,
            |
                j <= k < rest.len() ==> white_space(#[trigger] rest[k])) && (j > 0
                ==> !white_space(rest[j - 1]));
        assert(rest.take(j) =~= s.take(j));
        assert forall|k: int| j <= k < s.len() implies white_space(#[trigger] s[k]) by {
            if k < rest.len() {
                assert(rest[k] == s[k]);
            }
        }
    } else {
        assert(s.take(s.len() as int) =~= s);
    }
}

/// A reply is sent as it is, but where JSON was asked for and it is none: then the first
/// object in it is sent, if there is one.
pub proof fn law_what_is_sent(format: Option<JsonModel>, reply: Seq<char>)
    ensures
        ({
            let asked = format matches Some(f) && (f.member_text("type"@) == Some("json_object"@)
                || f.member_text("type"@) == Some("json_schema"@));
            let broken = json::json_parsed(trimmed(reply)) is Err;
            let sent = cleaned(validity(format, reply), reply);
            &&& validity(format, reply) is Some <==> asked
            &&& asked ==> validity(format, reply) == Some(!broken)
            &&& !asked || !broken || first_object(reply) is None ==> sent == reply
            &&& asked && broken && first_object(reply) is Some ==> Some(sent) == first_object(reply)
        }),
{
    reveal_strlit("");
    reveal_strlit("json_object");
    reveal_strlit("json_schema");
    assert(""@.len() == 0 && "json_object"@.len() == 11 && "json_schema"@.len() == 11);
}

} // verus!
