//! JSON values as the plugin reads them: the parsed document is `serde_json`'s, held here in
//! a type of the library so that the lookups on it can be verified.

use vstd::prelude::*;

verus! {

/// A JSON value. Numbers are kept when they are whole; other numbers are only marked, since
/// nothing the plugin reads looks at them.
#[derive(Debug)]
pub enum JsonValue {
    Null,
    Bool(bool),
    Integer(i128),
    NonInteger,
    Str(String),
    Array(Vec<JsonValue>),
    Object(Vec<(String, JsonValue)>),
}

/// The value under the first entry named `key`, when `v` is an object.
pub open spec fn json_get(v: JsonValue, key: Seq<char>) -> Option<JsonValue> {
    match v {
        JsonValue::Object(entries) => entry_named(entries@, key, 0),
        _ => None,
    }
}

/// The value of the first entry of `entries`, at or after `from`, named `key`.
pub open spec fn entry_named(entries: Seq<(String, JsonValue)>, key: Seq<char>, from: int) -> Option<
    JsonValue,
>
    decreases entries.len() - from,
{
    if from < 0 || from >= entries.len() {
        None
    } else if entries[from].0@ == key {
        Some(entries[from].1)
    } else {
        entry_named(entries, key, from + 1)
    }
}

/// The first entry named `key` is the one at `i`.
pub proof fn lemma_entry_named_first(entries: Seq<(String, JsonValue)>, key: Seq<char>, i: int)
    requires
        0 <= i < entries.len(),
        entries[i].0@ == key,
        forall|j: int| 0 <= j < i ==> entries[j].0@ != key,
    ensures
        entry_named(entries, key, 0) == Some(entries[i].1),
{
    lemma_entry_named_from(entries, key, 0, i);
}

proof fn lemma_entry_named_from(entries: Seq<(String, JsonValue)>, key: Seq<char>, from: int, i: int)
    requires
        0 <= from <= i < entries.len(),
        entries[i].0@ == key,
        forall|j: int| 0 <= j < i ==> entries[j].0@ != key,
    ensures
        entry_named(entries, key, from) == Some(entries[i].1),
    decreases i - from,
{
    if from < i {
        lemma_entry_named_from(entries, key, from + 1, i);
    }
}

/// The value reached from `v` through the object keys of `path`, one after another.
pub open spec fn json_at_path(v: JsonValue, path: Seq<Seq<char>>) -> Option<JsonValue>
    decreases path.len(),
{
    if path.len() == 0 {
        Some(v)
    } else {
        match json_get(v, path[0]) {
            Some(child) => json_at_path(child, path.drop_first()),
            None => None,
        }
    }
}

/// The text of `v`, when it is a string.
pub open spec fn json_str(v: JsonValue) -> Option<Seq<char>> {
    match v {
        JsonValue::Str(s) => Some(s@),
        _ => None,
    }
}

/// The string at the first of `paths` that leads to a string.
pub open spec fn first_string_at(v: JsonValue, paths: Seq<Seq<Seq<char>>>) -> Option<Seq<char>>
    decreases paths.len(),
{
    if paths.len() == 0 {
        None
    } else {
        match json_at_path(v, paths[0]) {
            Some(found) => match json_str(found) {
                Some(s) => Some(s),
                None => first_string_at(v, paths.drop_first()),
            },
            None => first_string_at(v, paths.drop_first()),
        }
    }
}

/// The JSON document that `serde_json` reads from `text`, if it reads one.
pub uninterp spec fn json_document(text: Seq<char>) -> Option<JsonValue>;

/// The JSON document that `serde_json` reads from the bytes `bytes`, if it reads one.
pub uninterp spec fn json_document_bytes(bytes: Seq<u8>) -> Option<JsonValue>;

#[verifier::external_type_specification]
#[verifier::external_body]
pub struct ExSerdeJsonValue(serde_json::Value);

/// Converts a parsed `serde_json::Value` variant for variant; a number is kept when
/// `serde_json` holds it as an `i64` or `u64`. This is the result conversion of the two parse
/// wrappers below, a function of its own because values nest.
#[verifier::external_body]
fn from_serde(v: serde_json::Value) -> JsonValue {
    match v {
        serde_json::Value::Null => JsonValue::Null,
        serde_json::Value::Bool(b) => JsonValue::Bool(b),
        serde_json::Value::Number(n) => match n.as_i64().map(i128::from).or(n.as_u64().map(i128::from)) {
            Some(i) => JsonValue::Integer(i),
            None => JsonValue::NonInteger,
        },
        serde_json::Value::String(s) => JsonValue::Str(s),
        serde_json::Value::Array(a) => JsonValue::Array(a.into_iter().map(from_serde).collect()),
        serde_json::Value::Object(m) => JsonValue::Object(m.into_iter().map(|(k, v)| (k, from_serde(v))).collect()),
    }
}

/// `serde_json::from_str::<serde_json::Value>`: the document in `text`, or `None` when it is
/// not one JSON value.
#[verifier::external_body]
pub(crate) fn parse_json(text: &str) -> (v: Option<JsonValue>)
    ensures
        v == json_document(text@),
{
    serde_json::from_str::<serde_json::Value>(text).ok().map(from_serde)
}

/// `serde_json::from_slice::<serde_json::Value>`: the document in `bytes`, or `None` when
/// they are not one JSON value in UTF-8.
#[verifier::external_body]
pub(crate) fn parse_json_bytes(bytes: &[u8]) -> (v: Option<JsonValue>)
    ensures
        v == json_document_bytes(bytes@),
{
    serde_json::from_slice::<serde_json::Value>(bytes).ok().map(from_serde)
}

fn str_eq(a: &String, b: &str) -> (r: bool)
    ensures
        r == (a@ == b@),
{
    let b_owned = b.to_owned();
    *a == b_owned
}

impl JsonValue {
    /// The value under `key`, when this is an object that has one.
    pub fn get(&self, key: &str) -> (r: Option<&JsonValue>)
        ensures
            r matches Some(c) ==> json_get(*self, key@) == Some(*c),
            r is None ==> json_get(*self, key@) is None,
    {
        match self {
            JsonValue::Object(entries) => {
                let mut i: usize = 0;
                while i < entries.len()
                    invariant
                        0 <= i <= entries@.len(),
                        json_get(*self, key@) == entry_named(entries@, key@, 0),
                        entry_named(entries@, key@, 0) == entry_named(entries@, key@, i as int),
                    decreases entries@.len() - i,
                {
                    if str_eq(&entries[i].0, key) {
                        assert(entry_named(entries@, key@, i as int) == Some(entries@[i as int].1));
                        return Some(&entries[i].1);
                    }
                    i += 1;
                }
                None
            },
            _ => None,
        }
    }

    /// The text of this value, when it is a string.
    pub fn as_str(&self) -> (r: Option<&String>)
        ensures
            r matches Some(s) ==> json_str(*self) == Some(s@),
            r is None ==> json_str(*self) is None,
    {
        match self {
            JsonValue::Str(s) => Some(s),
            _ => None,
        }
    }

    /// Takes the value under `key` out of this object, when it has one.
    pub fn take(self, key: &str) -> (r: Option<JsonValue>)
        ensures
            r == json_get(self, key@),
    {
        match self {
            JsonValue::Object(entries) => take_entry(entries, key),
            _ => None,
        }
    }
}

/// Takes out the value of the first entry named `key`.
fn take_entry(items: Vec<(String, JsonValue)>, key: &str) -> (r: Option<JsonValue>)
    ensures
        r == entry_named(items@, key@, 0),
{
    let ghost all = items@;
    let mut entries = items;
    assert(entries@ == all);
    let mut i: usize = 0;
    while i < entries.len()
        invariant
            entries@ == all,
            all == items@,
            0 <= i <= entries@.len(),
            entry_named(all, key@, 0) == entry_named(all, key@, i as int),
        decreases entries@.len() - i,
    {
        if str_eq(&entries[i].0, key) {
            assert(entry_named(all, key@, i as int) == Some(all[i as int].1));
            let entry = entries.swap_remove(i);
            return Some(entry.1);
        }
        i += 1;
    }
    None
}

/// The keys of a path, as text.
pub open spec fn key_views(path: Seq<&str>) -> Seq<Seq<char>> {
    path.map_values(|k: &str| k@)
}

/// The string reached from `value` through `path`, copied out.
pub fn string_at_path(value: &JsonValue, path: &[&str]) -> (r: Option<String>)
    ensures
        r matches Some(s) ==> json_at_path(*value, key_views(path@)) matches Some(found)
            && json_str(found) == Some(s@),
        r is None ==> !(json_at_path(*value, key_views(path@)) matches Some(found)
            && json_str(found) is Some),
{
    let ghost keys = key_views(path@);
    let mut cursor = value;
    assert(keys.skip(0) =~= keys);
    let mut i: usize = 0;
    while i < path.len()
        invariant
            keys == key_views(path@),
            0 <= i <= path@.len(),
            json_at_path(*value, keys) == json_at_path(*cursor, keys.skip(i as int)),
        decreases path@.len() - i,
    {
        assert(keys.skip(i as int).drop_first() =~= keys.skip(i + 1));
        match cursor.get(path[i]) {
            Some(next) => {
                cursor = next;
            },
            None => {
                return None;
            },
        }
        i += 1;
    }
    assert(keys.skip(i as int) =~= Seq::<Seq<char>>::empty());
    match cursor.as_str() {
        Some(s) => Some(s.clone()),
        None => None,
    }
}

} // verus!
