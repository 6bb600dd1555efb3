//! JSON values: the shape of attributes, conditions and feature values.
//!
//! `Value` is what the program holds; `Json` is the mathematical tree that it
//! stands for, and every contract of the library speaks of the latter. An
//! object is a list of entries; the first entry with a key is the one that a
//! lookup finds.

use crate::lookup::{key_position, lemma_key_position_is};
use crate::number::Number;
use crate::text::{chars_eq, chars_of, str_eq};
use vstd::prelude::*;
use vstd::std_specs::cmp::PartialEqSpecImpl;

verus! {

/// A JSON value.
#[derive(Debug)]
pub enum Value {
    Null,
    Bool(bool),
    Number(Number),
    String(String),
    Array(Vec<Value>),
    Object(Vec<(String, Value)>),
}

/// The tree that a `Value` stands for.
pub enum Json {
    Null,
    Bool(bool),
    Number(Number),
    String(Seq<char>),
    Array(Seq<Json>),
    Object(Seq<(Seq<char>, Json)>),
}

/// The tree that a value stands for.
pub open spec fn json_of(value: Value) -> Json
    decreases value,
{
    match value {
        Value::Null => Json::Null,
        Value::Bool(b) => Json::Bool(b),
        Value::Number(n) => Json::Number(n),
        Value::String(s) => Json::String(s@),
        Value::Array(items) => Json::Array(items_view(items@)),
        Value::Object(entries) => Json::Object(entries_view(entries@)),
    }
}

/// The trees of a list of values.
pub open spec fn items_view(items: Seq<Value>) -> Seq<Json>
    decreases items,
{
    if items.len() == 0 {
        Seq::empty()
    } else {
        items_view(items.drop_last()).push(json_of(items.last()))
    }
}

/// The entries of an object, each key as text and each value as a tree.
pub open spec fn entries_view(entries: Seq<(String, Value)>) -> Seq<(Seq<char>, Json)>
    decreases entries,
{
    if entries.len() == 0 {
        Seq::empty()
    } else {
        entries_view(entries.drop_last()).push((entries.last().0@, json_of(entries.last().1)))
    }
}

impl DeepView for Value {
    type V = Json;

    open spec fn deep_view(&self) -> Json {
        json_of(*self)
    }
}

impl View for Value {
    type V = Json;

    open spec fn view(&self) -> Json {
        json_of(*self)
    }
}

/// The trees of a list of values are the trees of its items, in order.
pub broadcast proof fn lemma_items_view(items: Seq<Value>)
    ensures
        #![trigger items_view(items)]
        items_view(items).len() == items.len(),
        forall|i: int| 0 <= i < items.len() ==> (#[trigger] items_view(items)[i]) == items[i]@,
    decreases items.len(),
{
    if items.len() > 0 {
        lemma_items_view(items.drop_last());
    }
}

/// The entries of an object's tree are its entries, in order.
pub broadcast proof fn lemma_entries_view(entries: Seq<(String, Value)>)
    ensures
        #![trigger entries_view(entries)]
        entries_view(entries).len() == entries.len(),
        forall|i: int|
            0 <= i < entries.len() ==> (#[trigger] entries_view(entries)[i]) == (
                entries[i].0@,
                entries[i].1@,
            ),
    decreases entries.len(),
{
    if entries.len() > 0 {
        lemma_entries_view(entries.drop_last());
    }
}

/// The tree of an optional value.
pub open spec fn option_view(value: Option<&Value>) -> Option<Json> {
    match value {
        Some(v) => Some(v@),
        None => None,
    }
}

impl Json {
    /// The value under `key`, where this is an object that has the key.
    pub open spec fn field(self, key: Seq<char>) -> Option<Json> {
        match self {
            Json::Object(entries) => {
                let at = key_position(entries, key);
                if 0 <= at < entries.len() {
                    Some(entries[at].1)
                } else {
                    None
                }
            },
            _ => None,
        }
    }

    /// The text of a string value.
    pub open spec fn text(self) -> Option<Seq<char>> {
        match self {
            Json::String(s) => Some(s),
            _ => None,
        }
    }

    /// The items of an array value.
    pub open spec fn items(self) -> Option<Seq<Json>> {
        match self {
            Json::Array(items) => Some(items),
            _ => None,
        }
    }

    /// The value is truthy: anything but null, `false`, the empty string and
    /// a zero.
    pub open spec fn truthy(self) -> bool {
        match self {
            Json::Null => false,
            Json::Bool(b) => b,
            Json::String(s) => s.len() > 0,
            Json::Number(n) => !n.is_zero(),
            _ => true,
        }
    }
}

/// Structural equality of trees. Numbers are equal as `Number::same` says,
/// arrays item by item, and objects when they have as many entries and each
/// entry of the first is found, with an equal value, in the second.
pub open spec fn json_eq(a: Json, b: Json) -> bool
    decreases a,
{
    match (a, b) {
        (Json::Null, Json::Null) => true,
        (Json::Bool(x), Json::Bool(y)) => x == y,
        (Json::Number(x), Json::Number(y)) => x.same(y),
        (Json::String(x), Json::String(y)) => x == y,
        (Json::Array(x), Json::Array(y)) => x.len() == y.len() && forall|i: int|
            0 <= i < x.len() ==> json_eq(#[trigger] x[i], y[i]),
        (Json::Object(x), Json::Object(y)) => x.len() == y.len() && forall|i: int|
            0 <= i < x.len() ==> entry_matches(#[trigger] x[i], y),
        _ => false,
    }
}

/// An entry is found, with an equal value, among the entries `others`.
pub open spec fn entry_matches(entry: (Seq<char>, Json), others: Seq<(Seq<char>, Json)>) -> bool
    decreases entry,
{
    let at = key_position(others, entry.0);
    0 <= at < others.len() && json_eq(entry.1, others[at].1)
}

impl Value {
    /// The value under `key`, where this is an object that has the key.
    pub fn get(&self, key: &str) -> (found: Option<&Value>)
        ensures
            option_view(found) == self@.field(key@),
    {
        broadcast use lemma_entries_view;

        match self {
            Value::Object(entries) => {
                let ghost model = entries_view(entries@);
                let mut i: usize = 0;
                while i < entries.len()
                    invariant
                        i <= entries.len(),
                        self@ == Json::Object(model),
                        model.len() == entries.len(),
                        forall|j: int|
                            0 <= j < entries.len() ==> (#[trigger] model[j]) == (
                                entries@[j].0@,
                                entries@[j].1@,
                            ),
                        forall|j: int| 0 <= j < i ==> (#[trigger] model[j]).0 != key@,
                    decreases entries.len() - i,
                {
                    if str_eq(entries[i].0.as_str(), key) {
                        proof {
                            lemma_key_position_is(model, key@, i as int);
                        }
                        return Some(&entries[i].1);
                    }
                    i += 1;
                }
                proof {
                    lemma_key_position_is(model, key@, i as int);
                }
                None
            },
            _ => None,
        }
    }

    /// The value under the key that `key` spells, where this is an object
    /// that has the key.
    pub fn get_chars(&self, key: &Vec<char>) -> (found: Option<&Value>)
        ensures
            option_view(found) == self@.field(key@),
    {
        broadcast use lemma_entries_view;

        match self {
            Value::Object(entries) => {
                let ghost model = entries_view(entries@);
                let mut i: usize = 0;
                while i < entries.len()
                    invariant
                        i <= entries.len(),
                        self@ == Json::Object(model),
                        model.len() == entries.len(),
                        forall|j: int|
                            0 <= j < entries.len() ==> (#[trigger] model[j]) == (
                                entries@[j].0@,
                                entries@[j].1@,
                            ),
                        forall|j: int| 0 <= j < i ==> (#[trigger] model[j]).0 != key@,
                    decreases entries.len() - i,
                {
                    let name = chars_of(entries[i].0.as_str());
                    if chars_eq(&name, key) {
                        proof {
                            lemma_key_position_is(model, key@, i as int);
                        }
                        return Some(&entries[i].1);
                    }
                    i += 1;
                }
                proof {
                    lemma_key_position_is(model, key@, i as int);
                }
                None
            },
            _ => None,
        }
    }

    /// Whether the value is null.
    pub fn is_null(&self) -> (null: bool)
        ensures
            null == (self@ is Null),
    {
        match self {
            Value::Null => true,
            _ => false,
        }
    }

    /// The text of a string value.
    pub fn as_str(&self) -> (text: Option<&str>)
        ensures
            match text {
                Some(s) => self@.text() == Some(s@),
                None => self@.text() is None,
            },
    {
        match self {
            Value::String(s) => Some(s.as_str()),
            _ => None,
        }
    }

    /// The truth value of a boolean value.
    pub fn as_bool(&self) -> (b: Option<bool>)
        ensures
            b == match self@ {
                Json::Bool(b) => Some(b),
                _ => None,
            },
    {
        match self {
            Value::Bool(b) => Some(*b),
            _ => None,
        }
    }

    /// The number as a signed 64-bit integer, where the value is an integer
    /// that fits.
    pub fn as_i64(&self) -> (n: Option<i64>)
        ensures
            n == match self@ {
                Json::Number(n) => n.as_i64_spec(),
                _ => None,
            },
    {
        match self {
            Value::Number(n) => n.as_i64(),
            _ => None,
        }
    }

    /// The items of an array value.
    pub fn as_array(&self) -> (items: Option<&Vec<Value>>)
        ensures
            match items {
                Some(v) => self@.items() == Some(items_view(v@)),
                None => self@.items() is None,
            },
    {
        broadcast use lemma_items_view;

        match self {
            Value::Array(items) => {
                Some(items)
            },
            _ => None,
        }
    }

    /// Whether the value is truthy.
    pub fn is_truthy(&self) -> (on: bool)
        ensures
            on == self@.truthy(),
    {
        match self {
            Value::Null => false,
            Value::Bool(b) => *b,
            Value::String(s) => !s.as_str().is_empty(),
            Value::Number(n) => !n.is_zero_value(),
            _ => true,
        }
    }
}

impl Clone for Value {
    /// A copy that stands for the same tree.
    #[verifier::loop_isolation(false)]
    fn clone(&self) -> (copy: Value)
        ensures
            copy@ == self@,
        decreases self,
    {
        broadcast use {lemma_items_view, lemma_entries_view};

        match self {
            Value::Null => Value::Null,
            Value::Bool(b) => Value::Bool(*b),
            Value::Number(n) => Value::Number(*n),
            Value::String(s) => Value::String(s.clone()),
            Value::Array(items) => {
                let mut copies: Vec<Value> = Vec::new();
                let mut i: usize = 0;
                while i < items.len()
                    invariant
                        *self == Value::Array(*items),
                        i <= items.len(),
                        copies.len() == i,
                        forall|j: int| 0 <= j < i ==> (#[trigger] copies@[j])@ == items@[j]@,
                    decreases items.len() - i,
                {
                    let item = items[i].clone();
                    copies.push(item);
                    i += 1;
                }
                assert(items_view(copies@) =~= items_view(items@));
                Value::Array(copies)
            },
            Value::Object(entries) => {
                let mut copies: Vec<(String, Value)> = Vec::new();
                let mut i: usize = 0;
                while i < entries.len()
                    invariant
                        *self == Value::Object(*entries),
                        i <= entries.len(),
                        copies.len() == i,
                        forall|j: int|
                            0 <= j < i ==> (#[trigger] copies@[j]).0@ == entries@[j].0@ && copies@[j].1@
                                == entries@[j].1@,
                    decreases entries.len() - i,
                {
                    let key = entries[i].0.clone();
                    let value = entries[i].1.clone();
                    copies.push((key, value));
                    i += 1;
                }
                assert(entries_view(copies@) =~= entries_view(entries@));
                Value::Object(copies)
            },
        }
    }
}

/// Whether two values stand for equal trees.
#[verifier::loop_isolation(false)]
pub fn value_eq(a: &Value, b: &Value) -> (equal: bool)
    ensures
        equal == json_eq(a@, b@),
    decreases a,
{
    broadcast use {lemma_items_view, lemma_entries_view};

    match (a, b) {
        (Value::Null, Value::Null) => true,
        (Value::Bool(x), Value::Bool(y)) => *x == *y,
        (Value::Number(x), Value::Number(y)) => x.equals(y),
        (Value::String(x), Value::String(y)) => str_eq(x.as_str(), y.as_str()),
        (Value::Array(x), Value::Array(y)) => {
            assert(a@ == Json::Array(items_view(x@)) && b@ == Json::Array(items_view(y@)));
            if x.len() != y.len() {
                return false;
            }
            let mut i: usize = 0;
            while i < x.len()
                invariant
                    *a == Value::Array(*x),
                    x.len() == y.len(),
                    i <= x.len(),
                    forall|j: int| 0 <= j < i ==> json_eq(#[trigger] items_view(x@)[j], items_view(y@)[j]),
                decreases x.len() - i,
            {
                if !value_eq(&x[i], &y[i]) {
                    assert(!json_eq(items_view(x@)[i as int], items_view(y@)[i as int]));
                    return false;
                }
                i += 1;
            }
            true
        },
        (Value::Object(x), Value::Object(y)) => {
            assert(a@ == Json::Object(entries_view(x@)) && b@ == Json::Object(entries_view(y@)));
            if x.len() != y.len() {
                return false;
            }
            let mut i: usize = 0;
            while i < x.len()
                invariant
                    *a == Value::Object(*x),
                    *b == Value::Object(*y),
                    x.len() == y.len(),
                    i <= x.len(),
                    forall|j: int|
                        0 <= j < i ==> entry_matches(#[trigger] entries_view(x@)[j], entries_view(y@)),
                decreases x.len() - i,
            {
                let matched = match b.get(x[i].0.as_str()) {
                    Some(other) => value_eq(&x[i].1, other),
                    None => false,
                };
                if !matched {
                    assert(!entry_matches(entries_view(x@)[i as int], entries_view(y@)));
                    return false;
                }
                i += 1;
            }
            true
        },
        _ => false,
    }
}

impl PartialEq for Value {
    fn eq(&self, other: &Value) -> (equal: bool) {
        value_eq(self, other)
    }
}

impl PartialEqSpecImpl for Value {
    open spec fn obeys_eq_spec() -> bool {
        true
    }

    open spec fn eq_spec(&self, other: &Value) -> bool {
        json_eq(self@, other@)
    }
}

} // verus!
