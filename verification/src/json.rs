//! JSON documents as plain data: the schemas and the objects that the validator walks.
//!
//! An object keeps its members in document order. Looking a key up finds the first member
//! of that name, so a document is read the same way whether or not a key occurs twice.

use vstd::prelude::*;
use crate::text::same_text;

verus! {

/// `serde_json::Number`, carried as it is where a number is neither an `i64` nor a `u64`.
#[verifier::external_type_specification]
#[verifier::external_body]
pub struct ExJsonNumber(serde_json::Number);

/// `Clone::clone` of `serde_json::Number`: the copy is the same number.
pub assume_specification[ <serde_json::Number as Clone>::clone ](n: &serde_json::Number) -> (r:
    serde_json::Number)
    ensures
        r == *n,
;

/// A JSON number: a signed integer, an unsigned integer, or any other number.
#[derive(Debug, PartialEq)]
pub enum JsonNumber {
    Int(i64),
    UInt(u64),
    Float(serde_json::Number),
}

impl Clone for JsonNumber {
    fn clone(&self) -> (r: Self)
        ensures
            r == *self,
    {
        match self {
            JsonNumber::Int(i) => JsonNumber::Int(*i),
            JsonNumber::UInt(u) => JsonNumber::UInt(*u),
            JsonNumber::Float(n) => JsonNumber::Float(n.clone()),
        }
    }
}

/// A JSON value.
#[derive(Debug, PartialEq)]
pub enum JsonValue {
    Null,
    Bool(bool),
    Number(JsonNumber),
    String(String),
    Array(Vec<JsonValue>),
    /// The members of an object, in the order they were written. Of two entries with one
    /// name the first is the member.
    Object(Vec<(String, JsonValue)>),
}

/// The mathematical value of a [`JsonValue`].
pub enum JsonView {
    Null,
    Bool(bool),
    Number(JsonNumber),
    String(Seq<char>),
    Array(Seq<JsonView>),
    Object(Seq<(Seq<char>, JsonView)>),
}

/// The mathematical value of `v`.
pub open spec fn json_view(v: JsonValue) -> JsonView
    decreases v,
{
    match v {
        JsonValue::Null => JsonView::Null,
        JsonValue::Bool(b) => JsonView::Bool(b),
        JsonValue::Number(n) => JsonView::Number(n),
        JsonValue::String(s) => JsonView::String(s@),
        JsonValue::Array(items) => JsonView::Array(
            Seq::new(
                items@.len(),
                |i: int|
                    if 0 <= i < items@.len() {
                        json_view(items@[i])
                    } else {
                        JsonView::Null
                    },
            ),
        ),
        JsonValue::Object(entries) => JsonView::Object(
            Seq::new(
                entries@.len(),
                |i: int|
                    if 0 <= i < entries@.len() {
                        (entries@[i].0@, json_view(entries@[i].1))
                    } else {
                        (Seq::empty(), JsonView::Null)
                    },
            ),
        ),
    }
}

impl View for JsonValue {
    type V = JsonView;

    open spec fn view(&self) -> JsonView {
        json_view(*self)
    }
}

impl Clone for JsonValue {
    fn clone(&self) -> (r: Self)
        ensures
            r@ == self@,
        decreases self,
    {
        match self {
            JsonValue::Null => JsonValue::Null,
            JsonValue::Bool(b) => JsonValue::Bool(*b),
            JsonValue::Number(n) => JsonValue::Number(n.clone()),
            JsonValue::String(s) => JsonValue::String(s.clone()),
            JsonValue::Array(items) => {
                let mut out: Vec<JsonValue> = Vec::new();
                let mut i: usize = 0;
                while i < items.len()
                    invariant
                        i <= items.len(),
                        out.len() == i,
                        decreases_to!(self => items),
                        forall|j: int| 0 <= j < i ==> #[trigger] out[j]@ == items[j]@,
                    decreases items.len() - i,
                {
                    out.push(items[i].clone());
                    i += 1;
                }
                assert forall|j: int| 0 <= j < out.len() implies JsonValue::Array(
                    out,
                )@.items()[j] == JsonValue::Array(*items)@.items()[j] by {
                    assert(out[j]@ == items[j]@);
                }
                assert(JsonValue::Array(out)@.items() =~= JsonValue::Array(*items)@.items());
                JsonValue::Array(out)
            },
            JsonValue::Object(entries) => {
                let mut out: Vec<(String, JsonValue)> = Vec::new();
                let mut i: usize = 0;
                while i < entries.len()
                    invariant
                        i <= entries.len(),
                        out.len() == i,
                        decreases_to!(self => entries),
                        forall|j: int|
                            0 <= j < i ==> (#[trigger] out[j]).0@ == entries[j].0@ && out[j].1@
                                == entries[j].1@,
                    decreases entries.len() - i,
                {
                    let name = entries[i].0.clone();
                    let value = entries[i].1.clone();
                    out.push((name, value));
                    i += 1;
                }
                assert(JsonValue::Object(out)@.entries() =~= JsonValue::Object(
                    *entries,
                )@.entries());
                JsonValue::Object(out)
            },
        }
    }
}

/// Whether the entry at `index` is the first of its name among `entries`. Of two entries
/// with one name only the first is a member: the later one is found by no lookup and is
/// passed over wherever the members are gone through.
pub open spec fn leads<V>(entries: Seq<(Seq<char>, V)>, index: int) -> bool {
    forall|j: int| 0 <= j < index ==> (#[trigger] entries[j]).0 != entries[index].0
}

/// The first member named `key` among `entries`, if there is one.
pub open spec fn lookup(entries: Seq<(Seq<char>, JsonView)>, key: Seq<char>) -> Option<JsonView>
    decreases entries.len(),
{
    if entries.len() == 0 {
        None
    } else if entries[0].0 == key {
        Some(entries[0].1)
    } else {
        lookup(entries.drop_first(), key)
    }
}

impl JsonView {
    /// The member named `key` of an object; nothing for any other value.
    pub open spec fn get(self, key: Seq<char>) -> Option<JsonView> {
        match self {
            JsonView::Object(entries) => lookup(entries, key),
            _ => None,
        }
    }

    /// The element at `index` of an array; nothing for any other value.
    pub open spec fn at(self, index: int) -> Option<JsonView> {
        match self {
            JsonView::Array(items) => if 0 <= index < items.len() {
                Some(items[index])
            } else {
                None
            },
            _ => None,
        }
    }

    /// The text of a string; nothing for any other value.
    pub open spec fn text(self) -> Option<Seq<char>> {
        match self {
            JsonView::String(s) => Some(s),
            _ => None,
        }
    }

    /// The members of an object, in order; none for any other value.
    pub open spec fn entries(self) -> Seq<(Seq<char>, JsonView)> {
        match self {
            JsonView::Object(entries) => entries,
            _ => Seq::empty(),
        }
    }

    /// The elements of an array, in order; none for any other value.
    pub open spec fn items(self) -> Seq<JsonView> {
        match self {
            JsonView::Array(items) => items,
            _ => Seq::empty(),
        }
    }
}

impl JsonValue {
    /// The member named `key`, where this value is an object that has one.
    pub fn get(&self, key: &str) -> (r: Option<&JsonValue>)
        ensures
            match r {
                Some(v) => self@.get(key@) == Some(v@) && decreases_to!(self => v),
                None => self@.get(key@) is None,
            },
    {
        match self {
            JsonValue::Object(entries) => {
                let mut i: usize = 0;
                assert(self@.entries().skip(0) =~= self@.entries());
                while i < entries.len()
                    invariant
                        i <= entries.len(),
                        decreases_to!(self => entries),
                        self@.entries().len() == entries.len(),
                        forall|j: int|
                            0 <= j < entries.len() ==> #[trigger] self@.entries()[j] == (
                                entries[j].0@,
                                entries[j].1@,
                            ),
                        lookup(self@.entries(), key@) == lookup(
                            self@.entries().skip(i as int),
                            key@,
                        ),
                    decreases entries.len() - i,
                {
                    let ghost rest = self@.entries().skip(i as int);
                    assert(rest[0] == self@.entries()[i as int]);
                    assert(rest.drop_first() == self@.entries().skip(i + 1));
                    if same_text(entries[i].0.as_str(), key) {
                        proof {
                            vstd::std_specs::vec::axiom_vec_index_decreases(*entries, i as int);
                        }
                        return Some(&entries[i].1);
                    }
                    i += 1;
                }
                None
            },
            _ => None,
        }
    }

    /// The members of an object, in order.
    pub fn as_object(&self) -> (r: Option<&Vec<(String, JsonValue)>>)
        ensures
            match r {
                Some(entries) => *self == JsonValue::Object(*entries),
                None => !(self@ is Object),
            },
    {
        match self {
            JsonValue::Object(entries) => Some(entries),
            _ => None,
        }
    }

    /// The elements of an array, in order.
    pub fn as_array(&self) -> (r: Option<&Vec<JsonValue>>)
        ensures
            match r {
                Some(items) => *self == JsonValue::Array(*items),
                None => !(self@ is Array),
            },
    {
        match self {
            JsonValue::Array(items) => Some(items),
            _ => None,
        }
    }

    /// The text of a string.
    pub fn as_str(&self) -> (r: Option<&str>)
        ensures
            match r {
                Some(s) => self@.text() == Some(s@),
                None => self@.text() is None,
            },
    {
        match self {
            JsonValue::String(s) => Some(s.as_str()),
            _ => None,
        }
    }

    /// Whether this value is an object.
    pub fn is_object(&self) -> (r: bool)
        ensures
            r == (self@ is Object),
    {
        match self {
            JsonValue::Object(_) => true,
            _ => false,
        }
    }
}

/// Whether the entry at `index` of an object's entries is the first of its name.
pub fn leads_among(entries: &Vec<(String, JsonValue)>, index: usize) -> (r: bool)
    requires
        index < entries.len(),
    ensures
        r == leads(JsonValue::Object(*entries)@.entries(), index as int),
{
    let ghost view = JsonValue::Object(*entries)@.entries();
    proof {
        lemma_object_view(*entries);
    }
    let mut j: usize = 0;
    while j < index
        invariant
            j <= index < entries.len(),
            view == JsonValue::Object(*entries)@.entries(),
            view.len() == entries.len(),
            forall|k: int| 0 <= k < entries.len() ==> #[trigger] view[k] == (entries[k].0@, entries[k].1@),
            forall|k: int| 0 <= k < j ==> (#[trigger] view[k]).0 != view[index as int].0,
        decreases index - j,
    {
        if same_text(entries[j].0.as_str(), entries[index].0.as_str()) {
            assert(view[j as int].0 == view[index as int].0);
            return false;
        }
        j += 1;
    }
    true
}

/// The members of an object's view are the views of its members, one for one.
pub proof fn lemma_object_view(entries: Vec<(String, JsonValue)>)
    ensures
        JsonValue::Object(entries)@.entries().len() == entries.len(),
        JsonValue::Object(entries)@ is Object,
        forall|j: int|
            0 <= j < entries.len() ==> #[trigger] JsonValue::Object(entries)@.entries()[j] == (
                entries[j].0@,
                entries[j].1@,
            ),
{
}

/// The elements of an array's view are the views of its elements, one for one.
pub proof fn lemma_array_view(items: Vec<JsonValue>)
    ensures
        JsonValue::Array(items)@.items().len() == items.len(),
        JsonValue::Array(items)@ is Array,
        forall|j: int|
            0 <= j < items.len() ==> #[trigger] JsonValue::Array(items)@.items()[j] == items[j]@,
{
}


/// What `lookup` finds is a part of `entries`, so it is smaller.
pub proof fn lemma_lookup_decreases(entries: Seq<(Seq<char>, JsonView)>, key: Seq<char>)
    ensures
        lookup(entries, key) matches Some(v) ==> decreases_to!(entries => v),
    decreases entries.len(),
{
    if entries.len() > 0 {
        if entries[0].0 != key {
            lemma_lookup_decreases(entries.drop_first(), key);
            if lookup(entries.drop_first(), key) is Some {
                let v = lookup(entries.drop_first(), key)->Some_0;
                lemma_lookup_index(entries.drop_first(), key);
                let i = choose|i: int|
                    0 <= i < entries.drop_first().len() && entries.drop_first()[i].1 == v;
                assert(entries[i + 1].1 == v);
            }
        }
    }
}

/// What `lookup` finds is the value of some member.
pub proof fn lemma_lookup_index(entries: Seq<(Seq<char>, JsonView)>, key: Seq<char>)
    ensures
        lookup(entries, key) matches Some(v) ==> exists|i: int|
            0 <= i < entries.len() && entries[i].0 == key && #[trigger] entries[i].1 == v,
    decreases entries.len(),
{
    if entries.len() > 0 {
        if entries[0].0 != key {
            lemma_lookup_index(entries.drop_first(), key);
            if lookup(entries.drop_first(), key) is Some {
                let v = lookup(entries.drop_first(), key)->Some_0;
                let i = choose|i: int|
                    0 <= i < entries.drop_first().len() && entries.drop_first()[i].0 == key
                        && #[trigger] entries.drop_first()[i].1 == v;
                assert(entries[i + 1].1 == v);
            }
        } else {
            assert(entries[0].1 == lookup(entries, key)->Some_0);
        }
    }
}

/// A lookup finds the first entry of the name, and nothing only where no entry has the
/// name.
pub proof fn lemma_lookup_leads(entries: Seq<(Seq<char>, JsonView)>, key: Seq<char>)
    ensures
        match lookup(entries, key) {
            Some(v) => exists|i: int|
                0 <= i < entries.len() && leads(entries, i) && #[trigger] entries[i] == (key, v),
            None => forall|i: int| 0 <= i < entries.len() ==> (#[trigger] entries[i]).0 != key,
        },
    decreases entries.len(),
{
    if entries.len() > 0 {
        let rest = entries.drop_first();
        if entries[0].0 == key {
            assert(leads(entries, 0));
            assert(entries[0] == (key, entries[0].1));
        } else {
            lemma_lookup_leads(rest, key);
            match lookup(rest, key) {
                Some(v) => {
                    let i = choose|i: int|
                        0 <= i < rest.len() && leads(rest, i) && #[trigger] rest[i] == (key, v);
                    assert forall|j: int| 0 <= j < i + 1 implies (#[trigger] entries[j]).0
                        != entries[i + 1].0 by {
                        if j > 0 {
                            assert(rest[j - 1] == entries[j]);
                        }
                    }
                    assert(leads(entries, i + 1));
                    assert(entries[i + 1] == (key, v));
                },
                None => {
                    assert forall|i: int| 0 <= i < entries.len() implies (#[trigger] entries[i]).0
                        != key by {
                        if i > 0 {
                            assert(rest[i - 1] == entries[i]);
                        }
                    }
                },
            }
        }
    }
}

} // verus!
