//! JSON values of the `serde_json` crate, and what they hold.

use vstd::prelude::*;

use crate::text::chars_of;

verus! {

/// What a JSON value holds. An object's members have no order; a number is an
/// integer, or a float by its bit pattern.
pub enum JsonModel {
    Null,
    Bool(bool),
    Int(int),
    Float(u64),
    Str(Seq<char>),
    Array(Seq<JsonModel>),
    Object(Map<Seq<char>, JsonModel>),
}

/// `serde_json::Value`.
#[verifier::external_type_specification]
#[verifier::external_body]
pub struct ExValue(serde_json::Value);

/// `serde_json::Map`.
#[verifier::external_type_specification]
#[verifier::external_body]
#[verifier::reject_recursive_types(K)]
#[verifier::reject_recursive_types(V)]
pub struct ExMap<K, V>(serde_json::Map<K, V>);

/// What a JSON value holds.
pub uninterp spec fn json_model(v: serde_json::Value) -> JsonModel;

/// The members of a JSON object.
pub uninterp spec fn json_members(
    m: serde_json::Map<String, serde_json::Value>,
) -> Map<Seq<char>, JsonModel>;

/// What `serde_json::from_str` reads in a text: a value, or the message of its
/// error.
pub uninterp spec fn json_parsed(text: Seq<char>) -> Result<JsonModel, Seq<char>>;

/// The compact JSON text that `serde_json` writes for a value, with the members
/// of an object in the order of their keys.
pub uninterp spec fn json_text(v: JsonModel) -> Seq<char>;

/// The members of an empty object.
pub open spec fn no_members() -> Map<Seq<char>, JsonModel> {
    Map::empty()
}

/// What a list of JSON values holds.
pub open spec fn json_models(v: Seq<serde_json::Value>) -> Seq<JsonModel> {
    v.map_values(|x: serde_json::Value| json_model(x))
}

impl JsonModel {
    /// The member `key` of an object.
    pub open spec fn member(self, key: Seq<char>) -> Option<JsonModel> {
        match self {
            JsonModel::Object(m) => if m.dom().contains(key) {
                Some(m[key])
            } else {
                None
            },
            _ => None,
        }
    }

    /// The text of a string.
    pub open spec fn text(self) -> Option<Seq<char>> {
        match self {
            JsonModel::Str(s) => Some(s),
            _ => None,
        }
    }

    /// The text of the member `key`, where that is a string.
    pub open spec fn member_text(self, key: Seq<char>) -> Option<Seq<char>> {
        match self.member(key) {
            Some(v) => v.text(),
            None => None,
        }
    }
}

/// What an optional reference to a JSON value holds.
pub open spec fn json_ref_model(v: Option<&serde_json::Value>) -> Option<JsonModel> {
    match v {
        Some(x) => Some(json_model(*x)),
        None => None,
    }
}

/// What an optional JSON value holds.
pub open spec fn json_opt_model(v: Option<serde_json::Value>) -> Option<JsonModel> {
    match v {
        Some(x) => Some(json_model(x)),
        None => None,
    }
}

/// Calls `serde_json::from_str` for a `Value`; the error is carried by its
/// message. The contract names what it reads.
#[verifier::external_body]
pub(crate) fn value_parse(text: &str) -> (r: Result<serde_json::Value, String>)
    ensures
        match r {
            Ok(v) => json_parsed(text@) == Ok::<JsonModel, Seq<char>>(json_model(v)),
            Err(e) => json_parsed(text@) == Err::<JsonModel, Seq<char>>(e@),
        },
{
    serde_json::from_str::<serde_json::Value>(text).map_err(|e| e.to_string())
}

/// Calls `<serde_json::Value as std::fmt::Display>::fmt`, through `to_string`.
/// The contract names the compact JSON text that it writes.
#[verifier::external_body]
pub(crate) fn value_text(v: &serde_json::Value) -> (r: String)
    ensures
        r@ == json_text(json_model(*v)),
{
    v.to_string()
}

/// Calls `serde_json::Value::get` with a key: the member of an object, and
/// nothing for another value or a missing key.
#[verifier::external_body]
pub(crate) fn value_get<'a>(v: &'a serde_json::Value, key: &str) -> (r: Option<
    &'a serde_json::Value,
>)
    ensures
        json_ref_model(r) == json_model(*v).member(key@),
{
    v.get(key)
}

/// Calls `serde_json::Value::as_str`: the text of a string, and nothing for
/// another value.
#[verifier::external_body]
pub(crate) fn value_as_str<'a>(v: &'a serde_json::Value) -> (r: Option<&'a str>)
    ensures
        match r {
            Some(s) => json_model(*v) == JsonModel::Str(s@),
            None => json_model(*v).text() is None,
        },
{
    v.as_str()
}

/// Calls `serde_json::Value::as_bool`: a truth value, and nothing for another value.
#[verifier::external_body]
pub(crate) fn value_as_bool(v: &serde_json::Value) -> (r: Option<bool>)
    ensures
        match r {
            Some(b) => json_model(*v) == JsonModel::Bool(b),
            None => !(json_model(*v) is Bool),
        },
{
    v.as_bool()
}

/// Calls `serde_json::Value::as_u64`: an integer that `u64` holds, and nothing for
/// another value.
#[verifier::external_body]
pub(crate) fn value_as_u64(v: &serde_json::Value) -> (r: Option<u64>)
    ensures
        match r {
            Some(n) => json_model(*v) == JsonModel::Int(n as int),
            None => !(json_model(*v) matches JsonModel::Int(n) && 0 <= n <= u64::MAX),
        },
{
    v.as_u64()
}

/// Calls `serde_json::Value::as_array`: the elements of an array, and nothing for
/// another value.
#[verifier::external_body]
pub(crate) fn value_as_array<'a>(v: &'a serde_json::Value) -> (r: Option<
    &'a Vec<serde_json::Value>,
>)
    ensures
        match r {
            Some(a) => json_model(*v) == JsonModel::Array(json_models(a@)),
            None => !(json_model(*v) is Array),
        },
{
    v.as_array()
}

/// Calls `serde_json::Value::is_null`.
#[verifier::external_body]
pub(crate) fn value_is_null(v: &serde_json::Value) -> (r: bool)
    ensures
        r == (json_model(*v) is Null),
{
    v.is_null()
}

/// Calls `serde_json::Value::as_object`: the members of an object, and nothing
/// for another value.
#[verifier::external_body]
pub(crate) fn value_as_object<'a>(v: &'a serde_json::Value) -> (r: Option<
    &'a serde_json::Map<String, serde_json::Value>,
>)
    ensures
        match r {
            Some(m) => json_model(*v) == JsonModel::Object(json_members(*m)),
            None => !(json_model(*v) is Object),
        },
{
    v.as_object()
}

/// `<serde_json::Value as Clone>::clone`: a value that holds the same.
pub assume_specification [<serde_json::Value as Clone>::clone] (
    v: &serde_json::Value,
) -> (r: serde_json::Value)
    ensures
        json_model(r) == json_model(*v),
;

/// Makes `serde_json::Value::Null`.
#[verifier::external_body]
pub(crate) fn value_null() -> (r: serde_json::Value)
    ensures
        json_model(r) == JsonModel::Null,
{
    serde_json::Value::Null
}

/// Makes a `serde_json::Value::Bool`.
#[verifier::external_body]
pub(crate) fn value_bool(b: bool) -> (r: serde_json::Value)
    ensures
        json_model(r) == JsonModel::Bool(b),
{
    serde_json::Value::Bool(b)
}

/// Calls `<serde_json::Value as From<u64>>::from`: the number `n`.
#[verifier::external_body]
pub(crate) fn value_number(n: u64) -> (r: serde_json::Value)
    ensures
        json_model(r) == JsonModel::Int(n as int),
{
    serde_json::Value::from(n)
}

/// Makes a `serde_json::Value::String`.
#[verifier::external_body]
pub(crate) fn value_string(s: String) -> (r: serde_json::Value)
    ensures
        json_model(r) == JsonModel::Str(s@),
{
    serde_json::Value::String(s)
}

/// Makes a `serde_json::Value::Array`.
#[verifier::external_body]
pub(crate) fn value_array(v: Vec<serde_json::Value>) -> (r: serde_json::Value)
    ensures
        json_model(r) == JsonModel::Array(json_models(v@)),
{
    serde_json::Value::Array(v)
}

/// Makes a `serde_json::Value::Object`.
#[verifier::external_body]
pub(crate) fn value_object(m: serde_json::Map<String, serde_json::Value>) -> (r: serde_json::Value)
    ensures
        json_model(r) == JsonModel::Object(json_members(m)),
{
    serde_json::Value::Object(m)
}

/// Calls `serde_json::Map::new`: an object without members.
#[verifier::external_body]
pub(crate) fn map_new() -> (r: serde_json::Map<String, serde_json::Value>)
    ensures
        json_members(r) == no_members(),
{
    serde_json::Map::new()
}

/// Calls `<serde_json::Map as Clone>::clone`: an object with the same members.
#[verifier::external_body]
pub(crate) fn map_clone(m: &serde_json::Map<String, serde_json::Value>) -> (r: serde_json::Map<
    String,
    serde_json::Value,
>)
    ensures
        json_members(r) == json_members(*m),
{
    m.clone()
}

/// Calls `serde_json::Map::insert`: sets the member `key`.
#[verifier::external_body]
pub(crate) fn map_insert(
    m: &mut serde_json::Map<String, serde_json::Value>,
    key: String,
    v: serde_json::Value,
)
    ensures
        json_members(*final(m)) == json_members(*old(m)).insert(key@, json_model(v)),
{
    m.insert(key, v);
}

/// Calls `serde_json::Map::values` and collects: the values of all members, one for
/// each, in an order of which nothing is said.
#[verifier::external_body]
pub(crate) fn map_values<'a>(m: &'a serde_json::Map<String, serde_json::Value>) -> (r: Vec<
    &'a serde_json::Value,
>)
    ensures
        forall|x: JsonModel|
            (exists|i: int| 0 <= i < r@.len() && json_model(*#[trigger] r@[i]) == x)
                <==> json_members(*m).contains_value(x),
        r@.len() == json_members(*m).dom().len(),
{
    m.values().collect()
}

/// Sets the member `key` of an object.
pub(crate) fn put(
    m: &mut serde_json::Map<String, serde_json::Value>,
    key: &str,
    v: serde_json::Value,
)
    ensures
        json_members(*final(m)) == json_members(*old(m)).insert(key@, json_model(v)),
{
    map_insert(m, key.to_owned(), v);
}

/// Sets the member `key` of an object to a string.
pub(crate) fn put_text(
    m: &mut serde_json::Map<String, serde_json::Value>,
    key: &str,
    s: &str,
)
    ensures
        json_members(*final(m)) == json_members(*old(m)).insert(key@, JsonModel::Str(s@)),
{
    map_insert(m, key.to_owned(), value_string(s.to_owned()));
}

/// The text of the member `key` of a value, where that is a string.
pub(crate) fn member_str<'a>(v: &'a serde_json::Value, key: &str) -> (r: Option<&'a str>)
    ensures
        match r {
            Some(s) => json_model(*v).member_text(key@) == Some(s@),
            None => json_model(*v).member_text(key@) is None,
        },
{
    match value_get(v, key) {
        Some(x) => value_as_str(x),
        None => None,
    }
}

/// How far a JSON text has been read: how many colons stood outside its strings, and
/// whether a string is open and what follows in it is escaped.
pub struct Scan {
    pub colons: nat,
    pub quoted: bool,
    pub escaped: bool,
}

/// The first `n` characters of a JSON text, read.
pub open spec fn scanned(s: Seq<char>, n: nat) -> Scan
    decreases n,
{
    if n == 0 {
        Scan { colons: 0, quoted: false, escaped: false }
    } else {
        let before = scanned(s, (n - 1) as nat);
        let c = s[n - 1];
        if before.escaped {
            Scan { escaped: false, ..before }
        } else if c == '"' {
            Scan { quoted: !before.quoted, ..before }
        } else if before.quoted {
            Scan { escaped: c == '\\', ..before }
        } else if c == ':' {
            Scan { colons: before.colons + 1, ..before }
        } else {
            before
        }
    }
}

/// How many members the objects of a JSON text list, each with a colon behind its key.
pub open spec fn listed_members(s: Seq<char>) -> nat {
    scanned(s, s.len()).colons
}

/// Whether no object of a JSON text that reads as `d` lists a key twice: what was read
/// keeps the last of the members that share a key, and lists fewer when it is written.
pub open spec fn unrepeated(text: Seq<char>, d: JsonModel) -> bool {
    listed_members(text) == listed_members(json_text(d))
}

/// How many members the objects of a JSON text list.
fn count_members(s: &str) -> (r: usize)
    ensures
        r == listed_members(s@),
{
    let v = chars_of(s);
    let mut colons: usize = 0;
    let mut quoted = false;
    let mut escaped = false;
    let mut i: usize = 0;
    while i < v.len()
        invariant
            i <= v@.len(),
            v@ == s@,
            colons <= i,
            scanned(s@, i as nat) == (Scan { colons: colons as nat, quoted, escaped }),
        decreases v@.len() - i,
    {
        let c = v[i];
        if escaped {
            escaped = false;
        } else if c == '"' {
            quoted = !quoted;
        } else if quoted {
            escaped = c == '\\';
        } else if c == ':' {
            colons = colons + 1;
        }
        i = i + 1;
    }
    colons
}

/// Whether no object of a JSON text that reads as `v` lists a key twice.
pub(crate) fn is_unrepeated(text: &str, v: &serde_json::Value) -> (r: bool)
    ensures
        r == unrepeated(text@, json_model(*v)),
{
    count_members(text) == count_members(value_text(v).as_str())
}

/// A text that breaks off in no string leaves the count of what follows it as it is: the
/// members of both are those of the one and those of the other.
pub proof fn law_members_are_counted_part_by_part(a: Seq<char>, b: Seq<char>, n: nat)
    requires
        !scanned(a, a.len()).quoted,
        !scanned(a, a.len()).escaped,
        n <= b.len(),
    ensures
        ({
            let whole = scanned(a + b, a.len() + n);
            &&& whole.colons == listed_members(a) + scanned(b, n).colons
            &&& whole.quoted == scanned(b, n).quoted
            &&& whole.escaped == scanned(b, n).escaped
        }),
        n == b.len() ==> listed_members(a + b) == listed_members(a) + listed_members(b),
    decreases n,
{
    if n == 0 {
        lemma_scan_of_front(a, b, a.len());
    } else {
        law_members_are_counted_part_by_part(a, b, (n - 1) as nat);
        assert((a + b)[a.len() + n - 1] == b[n - 1]);
    }
    assert((a + b).len() == a.len() + b.len());
}

proof fn lemma_scan_of_front(a: Seq<char>, b: Seq<char>, n: nat)
    requires
        n <= a.len(),
    ensures
        scanned(a + b, n) == scanned(a, n),
    decreases n,
{
    if n > 0 {
        lemma_scan_of_front(a, b, (n - 1) as nat);
        assert((a + b)[n - 1] == a[n - 1]);
    }
}

/// What stands in a string is no member, whatever it holds; and a colon outside of one
/// stands behind the key of a member.
pub proof fn law_strings_hold_no_members(t: Seq<char>, n: nat)
    requires
        forall|i: int| 0 <= i < t.len() ==> #[trigger] t[i] != '"' && t[i] != '\\',
        n <= t.len(),
    ensures
        ({
            let string = seq!['"'] + t + seq!['"'];
            &&& scanned(string, n + 1) == (Scan { colons: 0, quoted: true, escaped: false })
            &&& n == t.len() ==> listed_members(string) == 0 && !scanned(
                string,
                string.len(),
            ).quoted
        }),
        listed_members(seq![':']) == 1,
    decreases n,
{
    let string = seq!['"'] + t + seq!['"'];
    reveal_with_fuel(scanned, 2);
    assert(seq![':'].len() == 1);
    if n == 0 {
        assert(string[0] == '"');
    } else {
        law_strings_hold_no_members(t, (n - 1) as nat);
        assert(string[n as int] == t[n - 1]);
    }
    if n == t.len() {
        assert(string.len() == n + 2);
        assert(string[n as int + 1] == '"');
    }
}

} // verus!
