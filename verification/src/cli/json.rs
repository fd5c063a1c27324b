//! JSON values as the Codex hook configuration holds them, with objects as lists of
//! entries in which the first entry of a key is the one that counts; their text is
//! read and written by `serde_json`.
use vstd::prelude::*;

use crate::text::{str_eq, string_of};

verus! {

#[verifier::external_type_specification]
#[verifier::external_body]
pub struct ExJsonNumber(serde_json::Number);

#[verifier::external_type_specification]
#[verifier::external_body]
pub struct ExJsonValue(serde_json::Value);

#[verifier::external_type_specification]
#[verifier::external_body]
pub struct ExJsonError(serde_json::Error);

/// A copy of a JSON number, by `Clone::clone` of `serde_json::Number` (derived
/// there). Trusted: the copy is claimed equal to the original.
pub assume_specification[<serde_json::Number as Clone>::clone](n: &serde_json::Number) -> (r: serde_json::Number)
    ensures
        r == *n,
;

/// A JSON value.
#[derive(Debug, PartialEq)]
pub enum JsonValue {
    Null,
    Bool(bool),
    Number(serde_json::Number),
    String(String),
    Array(Vec<JsonValue>),
    Object(Vec<(String, JsonValue)>),
}

/// A JSON value as mathematics: text as character sequences, objects as maps.
pub enum JsonView {
    Null,
    Bool(bool),
    Number(serde_json::Number),
    Str(Seq<char>),
    Array(Seq<JsonView>),
    Object(Map<Seq<char>, JsonView>),
}

/// The mathematical value of `v`.
pub open spec fn json_view(v: JsonValue) -> JsonView
    decreases v, 2nat,
{
    match v {
        JsonValue::Null => JsonView::Null,
        JsonValue::Bool(b) => JsonView::Bool(b),
        JsonValue::Number(n) => JsonView::Number(n),
        JsonValue::String(s) => JsonView::Str(s@),
        JsonValue::Array(items) => JsonView::Array(items_view(items@)),
        JsonValue::Object(entries) => JsonView::Object(entries_view(entries@)),
    }
}

/// The mathematical values of `items`.
pub open spec fn items_view(items: Seq<JsonValue>) -> Seq<JsonView>
    decreases items, 1nat,
{
    if items.len() == 0 {
        seq![]
    } else {
        items_view(items.drop_last()).push(json_view(items.last()))
    }
}

/// The map that a list of entries stands for: the first entry of each key counts.
pub open spec fn entries_view(entries: Seq<(String, JsonValue)>) -> Map<Seq<char>, JsonView>
    decreases entries, 1nat,
{
    if entries.len() == 0 {
        Map::empty()
    } else {
        let m = entries_view(entries.drop_last());
        let e = entries.last();
        if m.contains_key(e.0@) {
            m
        } else {
            m.insert(e.0@, json_view(e.1))
        }
    }
}

/// Every object in `v`, at any depth, has each of its keys in one entry only.
pub open spec fn unique_keys(v: JsonValue) -> bool
    decreases v, 2nat,
{
    match v {
        JsonValue::Array(items) => items_unique(items@),
        JsonValue::Object(entries) => entries_unique(entries@),
        _ => true,
    }
}

/// Every item of `items` has unique keys.
pub open spec fn items_unique(items: Seq<JsonValue>) -> bool
    decreases items, 1nat,
{
    if items.len() == 0 {
        true
    } else {
        items_unique(items.drop_last()) && unique_keys(items.last())
    }
}

/// No two of `entries` have the same key, and every value has unique keys.
pub open spec fn entries_unique(entries: Seq<(String, JsonValue)>) -> bool
    decreases entries, 1nat,
{
    if entries.len() == 0 {
        true
    } else {
        &&& entries_unique(entries.drop_last())
        &&& !entries_view(entries.drop_last()).contains_key(entries.last().0@)
        &&& unique_keys(entries.last().1)
    }
}

pub proof fn lemma_items_unique(items: Seq<JsonValue>)
    ensures
        items_unique(items) <==> forall|i: int| 0 <= i < items.len() ==> unique_keys(#[trigger] items[i]),
    decreases items.len(),
{
    if items.len() > 0 {
        lemma_items_unique(items.drop_last());
        if forall|i: int| 0 <= i < items.len() ==> unique_keys(#[trigger] items[i]) {
            assert forall|i: int| 0 <= i < items.drop_last().len() implies unique_keys(
                #[trigger] items.drop_last()[i],
            ) by {
                assert(items.drop_last()[i] == items[i]);
            }
            assert(unique_keys(items[items.len() - 1]));
        }
        if items_unique(items) {
            assert forall|i: int| 0 <= i < items.len() implies unique_keys(#[trigger] items[i]) by {
                if i < items.len() - 1 {
                    assert(items.drop_last()[i] == items[i]);
                }
            }
        }
    }
}

pub proof fn lemma_entries_unique(entries: Seq<(String, JsonValue)>)
    ensures
        entries_unique(entries) <==> {
            &&& forall|i: int| 0 <= i < entries.len() ==> unique_keys(#[trigger] entries[i].1)
            &&& forall|i: int, j: int|
                0 <= i < j < entries.len() ==> (#[trigger] entries[i]).0@ != (#[trigger] entries[j]).0@
        },
    decreases entries.len(),
{
    if entries.len() > 0 {
        let d = entries.drop_last();
        let last = entries.last();
        lemma_entries_unique(d);
        lemma_entries_view_keys(d, last.0@);
        if entries_unique(entries) {
            assert forall|i: int| 0 <= i < entries.len() implies unique_keys(#[trigger] entries[i].1) by {
                if i < entries.len() - 1 {
                    assert(d[i] == entries[i]);
                }
            }
            assert forall|i: int, j: int|
                0 <= i < j < entries.len() implies (#[trigger] entries[i]).0@ != (
                #[trigger] entries[j]).0@ by {
                assert(d[i] == entries[i]);
                if j < entries.len() - 1 {
                    assert(d[j] == entries[j]);
                } else if entries[i].0@ == entries[j].0@ {
                    assert(d[i].0@ == last.0@);
                }
            }
        }
        if (forall|i: int| 0 <= i < entries.len() ==> unique_keys(#[trigger] entries[i].1)) && (forall|
            i: int,
            j: int,
        |
            0 <= i < j < entries.len() ==> (#[trigger] entries[i]).0@ != (#[trigger] entries[j]).0@) {
            assert forall|i: int| 0 <= i < d.len() implies unique_keys(#[trigger] d[i].1) by {
                assert(d[i] == entries[i]);
            }
            assert forall|i: int, j: int| 0 <= i < j < d.len() implies (#[trigger] d[i]).0@ != (
            #[trigger] d[j]).0@ by {
                assert(d[i] == entries[i]);
                assert(d[j] == entries[j]);
            }
            assert(unique_keys(entries[entries.len() - 1].1));
            if entries_view(d).contains_key(last.0@) {
                let i = choose|i: int| 0 <= i < d.len() && (#[trigger] d[i]).0@ == last.0@;
                assert(d[i] == entries[i]);
                assert(entries[i].0@ != entries[entries.len() - 1].0@);
            }
        }
    }
}

pub proof fn lemma_items_view(items: Seq<JsonValue>)
    ensures
        items_view(items).len() == items.len(),
        forall|i: int| 0 <= i < items.len() ==> #[trigger] items_view(items)[i] == json_view(items[i]),
    decreases items.len(),
{
    if items.len() > 0 {
        lemma_items_view(items.drop_last());
        assert forall|i: int| 0 <= i < items.len() implies #[trigger] items_view(items)[i] == json_view(
            items[i],
        ) by {
            if i < items.len() - 1 {
                assert(items.drop_last()[i] == items[i]);
            }
        }
    }
}

/// The keys of an object are the keys of its entries.
pub proof fn lemma_entries_view_keys(entries: Seq<(String, JsonValue)>, k: Seq<char>)
    ensures
        entries_view(entries).contains_key(k) <==> exists|i: int|
            0 <= i < entries.len() && (#[trigger] entries[i]).0@ == k,
    decreases entries.len(),
{
    if entries.len() > 0 {
        lemma_entries_view_keys(entries.drop_last(), k);
        if exists|i: int| 0 <= i < entries.len() && (#[trigger] entries[i]).0@ == k {
            let i = choose|i: int| 0 <= i < entries.len() && (#[trigger] entries[i]).0@ == k;
            if i < entries.len() - 1 {
                assert(entries.drop_last()[i] == entries[i]);
            }
        }
        if exists|i: int| 0 <= i < entries.len() - 1 && (#[trigger] entries.drop_last()[i]).0@ == k {
            let i = choose|i: int| 0 <= i < entries.len() - 1 && (#[trigger] entries.drop_last()[i]).0@ == k;
            assert(entries[i] == entries.drop_last()[i]);
        }
    }
}

/// The value of a key is the value of its first entry.
pub proof fn lemma_entries_view_first(entries: Seq<(String, JsonValue)>, j: int)
    requires
        0 <= j < entries.len(),
        forall|i: int| 0 <= i < j ==> (#[trigger] entries[i]).0@ != entries[j].0@,
    ensures
        entries_view(entries).contains_key(entries[j].0@),
        entries_view(entries)[entries[j].0@] == json_view(entries[j].1),
    decreases entries.len(),
{
    let k = entries[j].0@;
    if j < entries.len() - 1 {
        let d = entries.drop_last();
        assert forall|i: int| 0 <= i < j implies (#[trigger] d[i]).0@ != d[j].0@ by {
            assert(d[i] == entries[i]);
        }
        lemma_entries_view_first(d, j);
    } else {
        lemma_entries_view_keys(entries.drop_last(), k);
        if entries_view(entries.drop_last()).contains_key(k) {
            let i = choose|i: int| 0 <= i < entries.len() - 1 && (#[trigger] entries.drop_last()[i]).0@ == k;
            assert(entries[i] == entries.drop_last()[i]);
        }
    }
}

/// Lists of entries whose keys and values have the same views stand for the same map.
pub proof fn lemma_entries_view_same(a: Seq<(String, JsonValue)>, b: Seq<(String, JsonValue)>)
    requires
        a.len() == b.len(),
        forall|i: int| 0 <= i < a.len() ==> (#[trigger] a[i]).0@ == b[i].0@ && json_view(a[i].1) == json_view(b[i].1),
    ensures
        entries_view(a) == entries_view(b),
    decreases a.len(),
{
    if a.len() > 0 {
        assert forall|i: int| 0 <= i < a.len() - 1 implies (#[trigger] a.drop_last()[i]).0@ == b.drop_last()[i].0@
            && json_view(a.drop_last()[i].1) == json_view(b.drop_last()[i].1) by {
            assert(a.drop_last()[i] == a[i]);
            assert(b.drop_last()[i] == b[i]);
        }
        lemma_entries_view_same(a.drop_last(), b.drop_last());
        assert(a.last() == a[a.len() - 1]);
        assert(b.last() == b[b.len() - 1]);
    }
}

/// Replacing the value of the first entry of a key replaces the key's value.
pub proof fn lemma_entries_set_first(entries: Seq<(String, JsonValue)>, j: int, v: JsonValue)
    requires
        0 <= j < entries.len(),
        forall|i: int| 0 <= i < j ==> (#[trigger] entries[i]).0@ != entries[j].0@,
    ensures
        entries_view(entries.update(j, (entries[j].0, v))) == entries_view(entries).insert(
            entries[j].0@,
            json_view(v),
        ),
    decreases entries.len(),
{
    let k = entries[j].0@;
    let e2 = entries.update(j, (entries[j].0, v));
    let d = entries.drop_last();
    if j == entries.len() - 1 {
        assert(e2.drop_last() =~= d);
        lemma_entries_view_keys(d, k);
        if entries_view(d).contains_key(k) {
            let i = choose|i: int| 0 <= i < entries.len() - 1 && (#[trigger] d[i]).0@ == k;
            assert(entries[i] == d[i]);
        }
    } else {
        assert forall|i: int| 0 <= i < j implies (#[trigger] d[i]).0@ != d[j].0@ by {
            assert(d[i] == entries[i]);
        }
        lemma_entries_set_first(d, j, v);
        assert(e2.drop_last() =~= d.update(j, (d[j].0, v)));
        lemma_entries_view_first(entries, j);
        lemma_entries_view_keys(d, k);
        assert(d[j] == entries[j]);
        assert(entries_view(d).contains_key(k));
        let last = entries.last();
        assert(e2.last() == last);
        if last.0@ == k {
            assert(entries_view(entries) == entries_view(d));
        } else {
            assert(entries_view(e2) =~= entries_view(entries).insert(k, json_view(v)));
        }
    }
}

/// A copy of `v`.
pub fn clone_json(v: &JsonValue) -> (r: JsonValue)
    ensures
        json_view(r) == json_view(*v),
        unique_keys(r) == unique_keys(*v),
    decreases *v,
{
    match v {
        JsonValue::Null => JsonValue::Null,
        JsonValue::Bool(b) => JsonValue::Bool(*b),
        JsonValue::Number(n) => JsonValue::Number(n.clone()),
        JsonValue::String(s) => JsonValue::String(s.clone()),
        JsonValue::Array(items) => JsonValue::Array(clone_items(items)),
        JsonValue::Object(entries) => {
            let out = clone_entries(entries);
            JsonValue::Object(out)
        },
    }
}

/// A copy of a list of values.
pub fn clone_items(items: &Vec<JsonValue>) -> (r: Vec<JsonValue>)
    ensures
        items_view(r@) == items_view(items@),
        items_unique(r@) == items_unique(items@),
    decreases items,
{
    let mut out: Vec<JsonValue> = Vec::new();
    let mut i: usize = 0;
    while i < items.len()
        invariant
            0 <= i <= items.len(),
            out@.len() == i,
            forall|m: int| 0 <= m < i ==> json_view(#[trigger] out@[m]) == json_view(items@[m]),
            forall|m: int| 0 <= m < i ==> unique_keys(#[trigger] out@[m]) == unique_keys(items@[m]),
        decreases items.len() - i,
    {
        let c = clone_json(&items[i]);
        out.push(c);
        i = i + 1;
    }
    proof {
        lemma_items_view(out@);
        lemma_items_view(items@);
        assert(items_view(out@) =~= items_view(items@));
        lemma_items_unique(out@);
        lemma_items_unique(items@);
        if items_unique(items@) {
            assert forall|m: int| 0 <= m < out@.len() implies unique_keys(#[trigger] out@[m]) by {
                assert(unique_keys(items@[m]));
            }
        }
        if items_unique(out@) {
            assert forall|m: int| 0 <= m < items@.len() implies unique_keys(#[trigger] items@[m]) by {
                assert(unique_keys(out@[m]));
            }
        }
    }
    out
}

/// A copy of a list of entries.
pub fn clone_entries(entries: &Vec<(String, JsonValue)>) -> (r: Vec<(String, JsonValue)>)
    ensures
        r@.len() == entries@.len(),
        forall|m: int| 0 <= m < entries@.len() ==> (#[trigger] r@[m]).0@ == entries@[m].0@ && json_view(r@[m].1) == json_view(entries@[m].1),
        entries_view(r@) == entries_view(entries@),
        entries_unique(r@) == entries_unique(entries@),
    decreases entries,
{
    let mut out: Vec<(String, JsonValue)> = Vec::new();
    let mut i: usize = 0;
    while i < entries.len()
        invariant
            0 <= i <= entries.len(),
            out@.len() == i,
            forall|m: int| 0 <= m < i ==> (#[trigger] out@[m]).0@ == entries@[m].0@ && json_view(out@[m].1) == json_view(entries@[m].1),
            forall|m: int| 0 <= m < i ==> unique_keys((#[trigger] out@[m]).1) == unique_keys(entries@[m].1),
        decreases entries.len() - i,
    {
        let (k, x) = &entries[i];
        let c = clone_json(x);
        out.push((k.clone(), c));
        i = i + 1;
    }
    proof {
        lemma_entries_view_same(out@, entries@);
        lemma_entries_unique(out@);
        lemma_entries_unique(entries@);
        if entries_unique(entries@) {
            assert forall|a: int, b: int| 0 <= a < b < out@.len() implies (#[trigger] out@[a]).0@ != (
            #[trigger] out@[b]).0@ by {
                assert(entries@[a].0@ != entries@[b].0@);
            }
            assert forall|a: int| 0 <= a < out@.len() implies unique_keys(#[trigger] out@[a].1) by {
                assert(unique_keys(entries@[a].1));
            }
        }
        if entries_unique(out@) {
            assert forall|a: int, b: int| 0 <= a < b < entries@.len() implies (
            #[trigger] entries@[a]).0@ != (#[trigger] entries@[b]).0@ by {
                assert(out@[a].0@ != out@[b].0@);
            }
            assert forall|a: int| 0 <= a < entries@.len() implies unique_keys(#[trigger] entries@[a].1) by {
                assert(unique_keys(out@[a].1));
            }
        }
    }
    out
}

impl Clone for JsonValue {
    fn clone(&self) -> (r: Self)
        ensures
            json_view(r) == json_view(*self),
            unique_keys(r) == unique_keys(*self),
    {
        clone_json(self)
    }
}

/// The index of the first entry with key `key`.
pub fn find_key(entries: &Vec<(String, JsonValue)>, key: &str) -> (r: Option<usize>)
    ensures
        match r {
            Some(j) => j < entries@.len() && entries@[j as int].0@ == key@ && forall|i: int|
                0 <= i < j ==> (#[trigger] entries@[i]).0@ != key@,
            None => forall|i: int| 0 <= i < entries@.len() ==> (#[trigger] entries@[i]).0@ != key@,
        },
{
    let mut i: usize = 0;
    while i < entries.len()
        invariant
            0 <= i <= entries.len(),
            forall|m: int| 0 <= m < i ==> (#[trigger] entries@[m]).0@ != key@,
        decreases entries.len() - i,
    {
        if str_eq(entries[i].0.as_str(), key) {
            return Some(i);
        }
        i = i + 1;
    }
    None
}

/// The value of `key` in the object `entries`.
pub fn entries_get<'a>(entries: &'a Vec<(String, JsonValue)>, key: &str) -> (r: Option<&'a JsonValue>)
    ensures
        match r {
            Some(x) => entries_view(entries@).contains_key(key@) && json_view(*x) == entries_view(entries@)[key@]
                && exists|i: int| 0 <= i < entries@.len() && *x == (#[trigger] entries@[i]).1,
            None => !entries_view(entries@).contains_key(key@),
        },
{
    match find_key(entries, key) {
        Some(j) => {
            proof {
                lemma_entries_view_first(entries@, j as int);
            }
            Some(&entries[j].1)
        },
        None => {
            proof {
                lemma_entries_view_keys(entries@, key@);
            }
            None
        },
    }
}

impl JsonValue {
    /// The value of `key`, if this is an object that has it.
    pub fn get(&self, key: &str) -> (r: Option<&JsonValue>)
        ensures
            match json_view(*self) {
                JsonView::Object(m) => match r {
                    Some(x) => m.contains_key(key@) && json_view(*x) == m[key@],
                    None => !m.contains_key(key@),
                },
                _ => r is None,
            },
    {
        match self {
            JsonValue::Object(entries) => entries_get(entries, key),
            _ => None,
        }
    }

    /// The items of this value, if it is an array.
    pub fn as_array(&self) -> (r: Option<&Vec<JsonValue>>)
        ensures
            match *self {
                JsonValue::Array(items) => r == Some(&items),
                _ => r is None,
            },
    {
        match self {
            JsonValue::Array(items) => Some(items),
            _ => None,
        }
    }
}

/// Set `key` to `v` in the object `entries`: the first entry of the key gets the new
/// value, or a new entry is added at the end.
pub fn entries_insert(entries: &mut Vec<(String, JsonValue)>, key: &str, v: JsonValue)
    ensures
        entries_view(final(entries)@) == entries_view(old(entries)@).insert(key@, json_view(v)),
        entries_unique(old(entries)@) && unique_keys(v) ==> entries_unique(final(entries)@),
{
    let ghost before = entries@;
    proof {
        lemma_entries_unique(before);
    }
    match find_key(entries, key) {
        Some(j) => {
            let k = entries[j].0.clone();
            entries.set(j, (k, v));
            proof {
                assert(entries@ == before.update(j as int, (before[j as int].0, v)));
                lemma_entries_set_first(before, j as int, v);
                lemma_entries_unique(entries@);
                if entries_unique(before) && unique_keys(v) {
                    assert forall|a: int| 0 <= a < entries@.len() implies unique_keys(#[trigger] entries@[a].1) by {
                        if a != j {
                            assert(entries@[a] == before[a]);
                        }
                    }
                    assert forall|a: int, b: int| 0 <= a < b < entries@.len() implies (#[trigger] entries@[a]).0@
                        != (#[trigger] entries@[b]).0@ by {
                        assert(entries@[a].0@ == before[a].0@);
                        assert(entries@[b].0@ == before[b].0@);
                    }
                }
            }
        },
        None => {
            entries.push((string_of(key), v));
            proof {
                lemma_entries_view_keys(before, key@);
                assert(entries@.drop_last() == before);
            }
        },
    }
}


/// What `serde_json::from_str` reads from `text` as a JSON value, when it reads one.
pub uninterp spec fn parsed_json(text: Seq<char>) -> Option<JsonView>;

/// The text that `serde_json::to_string_pretty` writes for a JSON value.
pub uninterp spec fn pretty_json(v: JsonView) -> Seq<char>;

/// Moves a `serde_json::Value` into a `JsonValue`, variant for variant; the entries
/// of an object come in the order its map yields them. Conversion for `parse_json`.
#[verifier::external_body]
fn json_of_serde(v: serde_json::Value) -> JsonValue {
    match v {
        serde_json::Value::Null => JsonValue::Null,
        serde_json::Value::Bool(b) => JsonValue::Bool(b),
        serde_json::Value::Number(n) => JsonValue::Number(n),
        serde_json::Value::String(s) => JsonValue::String(s),
        serde_json::Value::Array(a) => JsonValue::Array(a.into_iter().map(json_of_serde).collect()),
        serde_json::Value::Object(m) => JsonValue::Object(m.into_iter().map(|(k, x)| (k, json_of_serde(x))).collect()),
    }
}

/// Copies a `JsonValue` into a `serde_json::Value`, variant for variant. Conversion
/// for `write_json_pretty`.
#[verifier::external_body]
fn serde_of_json(v: &JsonValue) -> serde_json::Value {
    match v {
        JsonValue::Null => serde_json::Value::Null,
        JsonValue::Bool(b) => serde_json::Value::Bool(*b),
        JsonValue::Number(n) => serde_json::Value::Number(n.clone()),
        JsonValue::String(s) => serde_json::Value::String(s.clone()),
        JsonValue::Array(a) => serde_json::Value::Array(a.iter().map(serde_of_json).collect()),
        JsonValue::Object(es) => serde_json::Value::Object(es.iter().map(|(k, x)| (k.clone(), serde_of_json(x))).collect()),
    }
}

/// Reads JSON text by calling `serde_json::from_str` into a `serde_json::Value`,
/// moved into a `JsonValue`. Trusted, not proved: the call is claimed to fail
/// exactly when `parsed_json` of the text is `None`, else to give that value; and,
/// since a `serde_json` map holds each key once, every object to have unique keys.
#[verifier::external_body]
pub(crate) fn parse_json(text: &str) -> (r: Result<JsonValue, serde_json::Error>)
    ensures
        match r {
            Ok(v) => parsed_json(text@) == Some(json_view(v)) && unique_keys(v),
            Err(_) => parsed_json(text@) is None,
        },
{
    serde_json::from_str::<serde_json::Value>(text).map(json_of_serde)
}

/// The message of a `serde_json::Error`, by its `Display` impl. Nothing is claimed
/// of the text.
#[verifier::external_body]
pub(crate) fn json_error_message(e: &serde_json::Error) -> String {
    e.to_string()
}

/// Writes a JSON value as text by calling `serde_json::to_string_pretty` on it as a
/// `serde_json::Value`. Trusted, not proved: the call is claimed to succeed, with
/// the text `pretty_json` of the value. It cannot fail on a `serde_json::Value`: its
/// `Serialize` impl fails for no value (all map keys are strings) and the text goes
/// into a `Vec<u8>`, which takes every write. With each key once in every object,
/// the `serde_json::Value` is determined by the view, which is what the name needs.
#[verifier::external_body]
pub(crate) fn write_json_pretty(v: &JsonValue) -> (r: Result<String, serde_json::Error>)
    requires
        unique_keys(*v),
    ensures
        r is Ok,
        r matches Ok(t) ==> t@ == pretty_json(json_view(*v)),
{
    serde_json::to_string_pretty(&serde_of_json(v))
}

} // verus!
