//! JSON documents as trees, and the forms of document that the pool reads.

use crate::codec::{rows_of, str_equal, texts_of};
use vstd::prelude::*;

verus! {

/// A JSON value. A number is kept without its digits: no document that the
/// pool reads holds a number that matters.
#[derive(Debug, PartialEq)]
pub enum Json {
    Null,
    Bool(bool),
    Number,
    Text(String),
    List(Vec<Json>),
    Object(Vec<(String, Json)>),
}

/// What a JSON value holds.
pub enum JsonValue {
    Null,
    Bool(bool),
    Number,
    Text(Seq<char>),
    List(Seq<JsonValue>),
    Object(Seq<(Seq<char>, JsonValue)>),
}

/// What a JSON value holds.
pub open spec fn json_value(j: Json) -> JsonValue
    decreases j,
{
    match j {
        Json::Null => JsonValue::Null,
        Json::Bool(b) => JsonValue::Bool(b),
        Json::Number => JsonValue::Number,
        Json::Text(s) => JsonValue::Text(s@),
        Json::List(items) => JsonValue::List(
            Seq::new(
                items@.len(),
                |i: int|
                    if 0 <= i < items@.len() {
                        json_value(items@[i])
                    } else {
                        JsonValue::Null
                    },
            ),
        ),
        Json::Object(members) => JsonValue::Object(
            Seq::new(
                members@.len(),
                |i: int|
                    if 0 <= i < members@.len() {
                        (members@[i].0@, json_value(members@[i].1))
                    } else {
                        (Seq::empty(), JsonValue::Null)
                    },
            ),
        ),
    }
}

impl View for Json {
    type V = JsonValue;

    open spec fn view(&self) -> JsonValue {
        json_value(*self)
    }
}

/// The values of the items of a list, one for one.
pub proof fn lemma_list_view(j: Json)
    requires
        j is List,
    ensures
        j@ is List,
        j@->List_0.len() == j->List_0@.len(),
        forall|i: int| 0 <= i < j->List_0@.len() ==> #[trigger] j@->List_0[i] == j->List_0@[i]@,
{
    reveal_with_fuel(json_value, 2);
}

/// The keys and values of the members of an object, one for one.
pub proof fn lemma_object_view(j: Json)
    requires
        j is Object,
    ensures
        j@ is Object,
        j@->Object_0.len() == j->Object_0@.len(),
        forall|i: int|
            0 <= i < j->Object_0@.len() ==> #[trigger] j@->Object_0[i] == (
                j->Object_0@[i].0@,
                j->Object_0@[i].1@,
            ),
{
    reveal_with_fuel(json_value, 2);
}

/// `serde_json::Value`, a JSON value as the parser holds it. What it holds is
/// known through `json_of_value` alone.
#[verifier::external_type_specification]
#[verifier::external_body]
pub struct ExValue(serde_json::Value);

/// The value that a JSON text denotes; nothing where the text is not JSON.
pub uninterp spec fn json_document(text: Seq<char>) -> Option<JsonValue>;

/// What a value of the parser holds. An object has each key once.
pub uninterp spec fn json_of_value(v: serde_json::Value) -> JsonValue;

/// `serde_json::from_str` for `serde_json::Value`: the value that the text
/// denotes, or nothing where the text is not JSON.
#[verifier::external_body]
fn parse_value(source: &str) -> (r: Option<serde_json::Value>)
    ensures
        match r {
            Some(v) => json_document(source@) == Some(json_of_value(v)),
            None => json_document(source@) is None,
        },
{
    serde_json::from_str(source).ok()
}

/// The variants of `serde_json::Value`, one for one; a number loses its
/// digits.
#[verifier::external_body]
fn lift(v: serde_json::Value) -> (r: Json)
    ensures
        r@ == json_of_value(v),
{
    match v {
        serde_json::Value::Null => Json::Null,
        serde_json::Value::Bool(b) => Json::Bool(b),
        serde_json::Value::Number(_) => Json::Number,
        serde_json::Value::String(s) => Json::Text(s),
        serde_json::Value::Array(a) => Json::List(a.into_iter().map(lift).collect()),
        serde_json::Value::Object(o) => Json::Object(
            o.into_iter().map(|(k, v)| (k, lift(v))).collect(),
        ),
    }
}

/// Reads a JSON text.
pub fn read_json(text: &str) -> (r: Option<Json>)
    ensures
        match r {
            Some(j) => json_document(text@) == Some(j@),
            None => json_document(text@) is None,
        },
{
    match parse_value(text) {
        Some(v) => Some(lift(v)),
        None => None,
    }
}

/// The value of the first member with the given key.
pub open spec fn lookup(members: Seq<(Seq<char>, JsonValue)>, key: Seq<char>) -> Option<JsonValue>
    decreases members.len(),
{
    if members.len() == 0 {
        None
    } else if members[0].0 == key {
        Some(members[0].1)
    } else {
        lookup(members.drop_first(), key)
    }
}

impl JsonValue {
    /// The member of an object with the given key.
    pub open spec fn member(self, key: Seq<char>) -> Option<JsonValue> {
        match self {
            JsonValue::Object(members) => lookup(members, key),
            _ => None,
        }
    }

    /// The characters of a string.
    pub open spec fn text(self) -> Option<Seq<char>> {
        match self {
            JsonValue::Text(s) => Some(s),
            _ => None,
        }
    }

    /// The strings of a list of strings.
    pub open spec fn texts(self) -> Option<Seq<Seq<char>>> {
        match self {
            JsonValue::List(items) => if forall|i: int|
                0 <= i < items.len() ==> (#[trigger] items[i]).text() is Some {
                Some(Seq::new(items.len(), |i: int| items[i].text().unwrap()))
            } else {
                None
            },
            _ => None,
        }
    }

    /// The rows of a list of lists of strings.
    pub open spec fn rows(self) -> Option<Seq<Seq<Seq<char>>>> {
        match self {
            JsonValue::List(items) => if forall|i: int|
                0 <= i < items.len() ==> (#[trigger] items[i]).texts() is Some {
                Some(Seq::new(items.len(), |i: int| items[i].texts().unwrap()))
            } else {
                None
            },
            _ => None,
        }
    }

    /// The tables of a list of lists of lists of strings.
    pub open spec fn tables(self) -> Option<Seq<Seq<Seq<Seq<char>>>>> {
        match self {
            JsonValue::List(items) => if forall|i: int|
                0 <= i < items.len() ==> (#[trigger] items[i]).rows() is Some {
                Some(Seq::new(items.len(), |i: int| items[i].rows().unwrap()))
            } else {
                None
            },
            _ => None,
        }
    }
}

impl JsonValue {
    /// The characters of the string under the given key.
    pub open spec fn field_text(self, key: Seq<char>) -> Option<Seq<char>> {
        match self.member(key) {
            Some(m) => m.text(),
            None => None,
        }
    }

    /// The strings of the list under the given key.
    pub open spec fn field_texts(self, key: Seq<char>) -> Option<Seq<Seq<char>>> {
        match self.member(key) {
            Some(m) => m.texts(),
            None => None,
        }
    }

    /// The rows of the list under the given key.
    pub open spec fn field_rows(self, key: Seq<char>) -> Option<Seq<Seq<Seq<char>>>> {
        match self.member(key) {
            Some(m) => m.rows(),
            None => None,
        }
    }

    /// The tables of the list under the given key.
    pub open spec fn field_tables(self, key: Seq<char>) -> Option<Seq<Seq<Seq<Seq<char>>>>> {
        match self.member(key) {
            Some(m) => m.tables(),
            None => None,
        }
    }
}

/// The characters of each string of each row of each table.
pub open spec fn tables_of(v: Seq<Vec<Vec<String>>>) -> Seq<Seq<Seq<Seq<char>>>> {
    v.map_values(|t: Vec<Vec<String>>| rows_of(t@))
}

impl Json {
    /// The member of an object with the given key.
    pub fn member(&self, key: &str) -> (r: Option<&Json>)
        ensures
            match r {
                Some(j) => self@.member(key@) == Some(j@),
                None => self@.member(key@) is None,
            },
    {
        match self {
            Json::Object(members) => {
                let ghost all = self@->Object_0;
                let mut i: usize = 0;
                proof {
                    lemma_object_view(*self);
                    assert(all.skip(0) =~= all);
                }
                while i < members.len()
                    invariant
                        i <= members@.len(),
                        self@ == JsonValue::Object(all),
                        all.len() == members@.len(),
                        forall|j: int|
                            0 <= j < members@.len() ==> #[trigger] all[j] == (
                                members@[j].0@,
                                members@[j].1@,
                            ),
                        lookup(all, key@) == lookup(all.skip(i as int), key@),
                    decreases members@.len() - i,
                {
                    proof {
                        assert(all.skip(i as int)[0] == all[i as int]);
                        assert(all.skip(i as int).drop_first() =~= all.skip(i + 1));
                    }
                    if str_equal(members[i].0.as_str(), key) {
                        return Some(&members[i].1);
                    }
                    i += 1;
                }
                None
            },
            _ => None,
        }
    }

    /// The characters of the string under the given key.
    pub fn field_text(&self, key: &str) -> (r: Option<String>)
        ensures
            match r {
                Some(s) => self@.field_text(key@) == Some(s@),
                None => self@.field_text(key@) is None,
            },
    {
        match self.member(key) {
            Some(m) => m.text(),
            None => None,
        }
    }

    /// The strings of the list under the given key.
    pub fn field_texts(&self, key: &str) -> (r: Option<Vec<String>>)
        ensures
            match r {
                Some(v) => self@.field_texts(key@) == Some(texts_of(v@)),
                None => self@.field_texts(key@) is None,
            },
    {
        match self.member(key) {
            Some(m) => m.texts(),
            None => None,
        }
    }

    /// The rows of the list under the given key.
    pub fn field_rows(&self, key: &str) -> (r: Option<Vec<Vec<String>>>)
        ensures
            match r {
                Some(v) => self@.field_rows(key@) == Some(rows_of(v@)),
                None => self@.field_rows(key@) is None,
            },
    {
        match self.member(key) {
            Some(m) => m.rows(),
            None => None,
        }
    }

    /// The tables of the list under the given key.
    pub fn field_tables(&self, key: &str) -> (r: Option<Vec<Vec<Vec<String>>>>)
        ensures
            match r {
                Some(v) => self@.field_tables(key@) == Some(tables_of(v@)),
                None => self@.field_tables(key@) is None,
            },
    {
        match self.member(key) {
            Some(m) => m.tables(),
            None => None,
        }
    }

    /// The characters of a string.
    pub fn text(&self) -> (r: Option<String>)
        ensures
            match r {
                Some(s) => self@.text() == Some(s@),
                None => self@.text() is None,
            },
    {
        match self {
            Json::Text(s) => Some(s.clone()),
            _ => None,
        }
    }

    /// The strings of a list of strings.
    pub fn texts(&self) -> (r: Option<Vec<String>>)
        ensures
            match r {
                Some(v) => self@.texts() == Some(texts_of(v@)),
                None => self@.texts() is None,
            },
    {
        match self {
            Json::List(items) => {
                let ghost all = self@->List_0;
                let mut out: Vec<String> = Vec::new();
                let mut i: usize = 0;
                proof {
                    lemma_list_view(*self);
                }
                while i < items.len()
                    invariant
                        i <= items@.len(),
                        self@ == JsonValue::List(all),
                        all.len() == items@.len(),
                        forall|j: int| 0 <= j < items@.len() ==> #[trigger] all[j] == items@[j]@,
                        out@.len() == i,
                        forall|j: int|
                            0 <= j < i ==> (#[trigger] all[j]).text() == Some((out@[j])@),
                    decreases items@.len() - i,
                {
                    match items[i].text() {
                        Some(s) => {
                            out.push(s);
                        },
                        None => {
                            assert(all[i as int].text() is None);
                            return None;
                        },
                    }
                    i += 1;
                }
                proof {
                    assert(self@.texts().unwrap() =~= texts_of(out@));
                }
                Some(out)
            },
            _ => None,
        }
    }

    /// The rows of a list of lists of strings.
    pub fn rows(&self) -> (r: Option<Vec<Vec<String>>>)
        ensures
            match r {
                Some(v) => self@.rows() == Some(rows_of(v@)),
                None => self@.rows() is None,
            },
    {
        match self {
            Json::List(items) => {
                let ghost all = self@->List_0;
                let mut out: Vec<Vec<String>> = Vec::new();
                let mut i: usize = 0;
                proof {
                    lemma_list_view(*self);
                }
                while i < items.len()
                    invariant
                        i <= items@.len(),
                        self@ == JsonValue::List(all),
                        all.len() == items@.len(),
                        forall|j: int| 0 <= j < items@.len() ==> #[trigger] all[j] == items@[j]@,
                        out@.len() == i,
                        forall|j: int|
                            0 <= j < i ==> (#[trigger] all[j]).texts() == Some(texts_of((out@[j])@)),
                    decreases items@.len() - i,
                {
                    match items[i].texts() {
                        Some(row) => {
                            out.push(row);
                        },
                        None => {
                            assert(all[i as int].texts() is None);
                            return None;
                        },
                    }
                    i += 1;
                }
                proof {
                    assert(self@.rows().unwrap() =~= rows_of(out@));
                }
                Some(out)
            },
            _ => None,
        }
    }

    /// The tables of a list of lists of lists of strings.
    pub fn tables(&self) -> (r: Option<Vec<Vec<Vec<String>>>>)
        ensures
            match r {
                Some(v) => self@.tables() == Some(tables_of(v@)),
                None => self@.tables() is None,
            },
    {
        match self {
            Json::List(items) => {
                let ghost all = self@->List_0;
                let mut out: Vec<Vec<Vec<String>>> = Vec::new();
                let mut i: usize = 0;
                proof {
                    lemma_list_view(*self);
                }
                while i < items.len()
                    invariant
                        i <= items@.len(),
                        self@ == JsonValue::List(all),
                        all.len() == items@.len(),
                        forall|j: int| 0 <= j < items@.len() ==> #[trigger] all[j] == items@[j]@,
                        out@.len() == i,
                        forall|j: int|
                            0 <= j < i ==> (#[trigger] all[j]).rows() == Some(rows_of((out@[j])@)),
                    decreases items@.len() - i,
                {
                    match items[i].rows() {
                        Some(table) => {
                            out.push(table);
                        },
                        None => {
                            assert(all[i as int].rows() is None);
                            return None;
                        },
                    }
                    i += 1;
                }
                proof {
                    assert(self@.tables().unwrap() =~= tables_of(out@));
                }
                Some(out)
            },
            _ => None,
        }
    }
}

} // verus!
