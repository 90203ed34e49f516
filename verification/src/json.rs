//! JSON values as plain data, and reading them from text.

use crate::text::same_text;
use vstd::prelude::*;

verus! {

/// A JSON value. Of a number it holds what it is as an unsigned integer, if
/// it is one; the entries of an object stand in the order of their keys.
#[derive(Debug)]
pub enum Json {
    Null,
    Bool(bool),
    Number(Option<u64>),
    Text(String),
    Array(Vec<Json>),
    Object(Vec<(String, Json)>),
}

/// A JSON value with its texts as sequences.
pub enum JsonView {
    Null,
    Bool(bool),
    Number(Option<u64>),
    Text(Seq<char>),
    Array(Seq<JsonView>),
    Object(Seq<(Seq<char>, JsonView)>),
}

/// The first entry with that key.
pub open spec fn entry(entries: Seq<(Seq<char>, JsonView)>, key: Seq<char>) -> Option<JsonView>
    decreases entries.len(),
{
    if entries.len() == 0 {
        None
    } else if entries[0].0 == key {
        Some(entries[0].1)
    } else {
        entry(entries.skip(1), key)
    }
}

impl JsonView {
    /// The entry of an object with that key.
    pub open spec fn field(self, key: Seq<char>) -> Option<JsonView> {
        match self {
            JsonView::Object(entries) => entry(entries, key),
            _ => None,
        }
    }

    /// The text that the value is.
    pub open spec fn text(self) -> Option<Seq<char>> {
        match self {
            JsonView::Text(s) => Some(s),
            _ => None,
        }
    }

    /// The unsigned integer that the value is.
    pub open spec fn number(self) -> Option<u64> {
        match self {
            JsonView::Number(n) => n,
            _ => None,
        }
    }

    /// The elements of the array that the value is.
    pub open spec fn elements(self) -> Option<Seq<JsonView>> {
        match self {
            JsonView::Array(v) => Some(v),
            _ => None,
        }
    }

    /// The entries of the object that the value is.
    pub open spec fn entries(self) -> Option<Seq<(Seq<char>, JsonView)>> {
        match self {
            JsonView::Object(v) => Some(v),
            _ => None,
        }
    }

    /// The text of the entry with that key.
    pub open spec fn text_field(self, key: Seq<char>) -> Option<Seq<char>> {
        match self.field(key) {
            Some(v) => v.text(),
            None => None,
        }
    }

    /// The number of the entry with that key.
    pub open spec fn number_field(self, key: Seq<char>) -> Option<u64> {
        match self.field(key) {
            Some(v) => v.number(),
            None => None,
        }
    }
}

/// The elements of a list as values.
pub open spec fn trees(list: Seq<Json>) -> Seq<JsonView> {
    Seq::new(list.len(), |i: int| list[i].tree())
}

/// The entries of a list as values.
pub open spec fn entry_trees(list: Seq<(String, Json)>) -> Seq<(Seq<char>, JsonView)> {
    Seq::new(list.len(), |i: int| (list[i].0@, list[i].1.tree()))
}

impl Json {
    /// The value with its texts as sequences.
    pub open spec fn tree(self) -> JsonView
        decreases self,
    {
        match self {
            Json::Null => JsonView::Null,
            Json::Bool(b) => JsonView::Bool(b),
            Json::Number(n) => JsonView::Number(n),
            Json::Text(s) => JsonView::Text(s@),
            Json::Array(v) => JsonView::Array(
                Seq::new(
                    v@.len(),
                    |i: int|
                        if 0 <= i < v@.len() {
                            v@[i].tree()
                        } else {
                            JsonView::Null
                        },
                ),
            ),
            Json::Object(v) => JsonView::Object(
                Seq::new(
                    v@.len(),
                    |i: int|
                        if 0 <= i < v@.len() {
                            (v@[i].0@, v@[i].1.tree())
                        } else {
                            (Seq::empty(), JsonView::Null)
                        },
                ),
            ),
        }
    }

    /// The text that the value is.
    pub fn as_str(&self) -> (text: Option<&String>)
        ensures
            match text {
                Some(s) => self.tree().text() == Some(s@),
                None => self.tree().text() is None,
            },
    {
        match self {
            Json::Text(s) => Some(s),
            _ => None,
        }
    }

    /// The unsigned integer that the value is.
    pub fn as_u64(&self) -> (n: Option<u64>)
        ensures
            n == self.tree().number(),
    {
        match self {
            Json::Number(n) => *n,
            _ => None,
        }
    }

    /// The elements of the array that the value is.
    pub fn as_array(&self) -> (list: Option<&Vec<Json>>)
        ensures
            match list {
                Some(v) => self.tree().elements() == Some(trees(v@)),
                None => self.tree().elements() is None,
            },
    {
        match self {
            Json::Array(v) => {
                assert(self.tree().elements()->0 == trees(v@));
                Some(v)
            },
            _ => None,
        }
    }

    /// The entries of the object that the value is.
    pub fn as_object(&self) -> (list: Option<&Vec<(String, Json)>>)
        ensures
            match list {
                Some(v) => self.tree().entries() == Some(entry_trees(v@)),
                None => self.tree().entries() is None,
            },
    {
        match self {
            Json::Object(v) => {
                assert(self.tree().entries()->0 == entry_trees(v@));
                Some(v)
            },
            _ => None,
        }
    }

    /// The entry of an object with that key.
    pub fn get(&self, key: &str) -> (value: Option<&Json>)
        ensures
            match value {
                Some(v) => self.tree().field(key@) == Some(v.tree()),
                None => self.tree().field(key@) is None,
            },
    {
        let list = match self.as_object() {
            Some(list) => list,
            None => {
                return None;
            },
        };
        let ghost all = entry_trees(list@);
        let mut i: usize = 0;
        assert(all.skip(0) == all);
        while i < list.len()
            invariant
                all == entry_trees(list@),
                i <= list@.len(),
                self.tree().field(key@) == entry(all.skip(i as int), key@),
            decreases list@.len() - i,
        {
            assert(all.skip(i as int)[0] == all[i as int]);
            if same_text(list[i].0.as_str(), key) {
                return Some(&list[i].1);
            }
            assert(all.skip(i as int).skip(1) == all.skip(i + 1));
            i = i + 1;
        }
        None
    }

    /// The text of the entry with that key.
    pub fn get_str(&self, key: &str) -> (text: Option<&String>)
        ensures
            match text {
                Some(s) => self.tree().text_field(key@) == Some(s@),
                None => self.tree().text_field(key@) is None,
            },
    {
        match self.get(key) {
            Some(v) => v.as_str(),
            None => None,
        }
    }

    /// The number of the entry with that key.
    pub fn get_u64(&self, key: &str) -> (n: Option<u64>)
        ensures
            n == self.tree().number_field(key@),
    {
        match self.get(key) {
            Some(v) => v.as_u64(),
            None => None,
        }
    }
}

/// An optional value with its texts as sequences.
pub open spec fn json_opt(value: Option<Json>) -> Option<JsonView> {
    match value {
        Some(v) => Some(v.tree()),
        None => None,
    }
}

#[verifier::external_type_specification]
#[verifier::external_body]
pub struct ExValue(serde_json::Value);

/// The value that `serde_json::from_str` reads from a text, if it reads one.
pub uninterp spec fn json_of_text(text: Seq<char>) -> Option<JsonView>;

/// The value that `serde_json::from_slice` reads from bytes, if it reads one.
pub uninterp spec fn json_of_bytes(bytes: Seq<u8>) -> Option<JsonView>;

/// Takes a `serde_json::Value` apart, each variant into the one of the same
/// name; of a number it asks `Number::as_u64`. Nothing is claimed of it here:
/// what it yields is part of `json_of_text` and `json_of_bytes`.
#[verifier::external_body]
fn plain(value: serde_json::Value) -> Json {
    match value {
        serde_json::Value::Null => Json::Null,
        serde_json::Value::Bool(b) => Json::Bool(b),
        serde_json::Value::Number(n) => Json::Number(n.as_u64()),
        serde_json::Value::String(s) => Json::Text(s),
        serde_json::Value::Array(v) => Json::Array(v.into_iter().map(plain).collect()),
        serde_json::Value::Object(m) => {
            Json::Object(m.into_iter().map(|e| (e.0, plain(e.1))).collect())
        },
    }
}

/// Calls `serde_json::from_str` for a `serde_json::Value`. What it reads
/// depends on the text alone and is named `json_of_text`.
#[verifier::external_body]
pub(crate) fn parse_json(text: &str) -> (value: Option<Json>)
    ensures
        json_opt(value) == json_of_text(text@),
{
    match serde_json::from_str::<serde_json::Value>(text) {
        Ok(v) => Some(plain(v)),
        Err(_) => None,
    }
}

/// Calls `serde_json::from_slice` for a `serde_json::Value`. What it reads
/// depends on the bytes alone and is named `json_of_bytes`.
#[verifier::external_body]
pub(crate) fn parse_json_bytes(bytes: &[u8]) -> (value: Option<Json>)
    ensures
        json_opt(value) == json_of_bytes(bytes@),
{
    match serde_json::from_slice::<serde_json::Value>(bytes) {
        Ok(v) => Some(plain(v)),
        Err(_) => None,
    }
}

} // verus!
