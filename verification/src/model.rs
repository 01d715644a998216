//! The values that expressions work on, as plain data.
//!
//! [`CelValue`] stands for a value of the expression engine wherever this crate reads or builds
//! one: it holds what the crate's own functions look at, and carries the rest as it is.

use vstd::prelude::*;
use crate::quantity::KubeQuantity;
use crate::semver_funcs::{KubeSemver, SemverView};
use crate::ip::{KubeIP, KubeCIDR};
use crate::urls::{KubeUrl, UrlView};

verus! {

/// `cel::Value`: a value of the expression engine.
#[verifier::external_type_specification]
#[verifier::external_body]
pub struct ExCelValue(cel::Value);

/// `cel::ExecutionError`: what the engine reports when an expression cannot be evaluated.
#[verifier::external_type_specification]
#[verifier::external_body]
pub struct ExExecutionError(cel::ExecutionError);

/// `Clone::clone` of `cel::Value`: the copy is the same value.
pub assume_specification[ <cel::Value as Clone>::clone ](v: &cel::Value) -> (r: cel::Value)
    ensures
        r == *v,
;

/// The key of a map entry.
#[derive(Debug, PartialEq, Eq)]
pub enum CelKey {
    Int(i64),
    Uint(u64),
    Bool(bool),
    String(String),
}

/// The mathematical value of a [`CelKey`].
pub enum CelKeyView {
    Int(i64),
    Uint(u64),
    Bool(bool),
    String(Seq<char>),
}

impl View for CelKey {
    type V = CelKeyView;

    open spec fn view(&self) -> CelKeyView {
        match self {
            CelKey::Int(i) => CelKeyView::Int(*i),
            CelKey::Uint(u) => CelKeyView::Uint(*u),
            CelKey::Bool(b) => CelKeyView::Bool(*b),
            CelKey::String(s) => CelKeyView::String(s@),
        }
    }
}

impl CelKey {
    /// Whether two keys are the same key: of one kind, with one value.
    pub fn same(&self, other: &CelKey) -> (r: bool)
        ensures
            r == (self@ == other@),
    {
        match (self, other) {
            (CelKey::Int(a), CelKey::Int(b)) => *a == *b,
            (CelKey::Uint(a), CelKey::Uint(b)) => *a == *b,
            (CelKey::Bool(a), CelKey::Bool(b)) => *a == *b,
            (CelKey::String(a), CelKey::String(b)) => crate::text::same_text(
                a.as_str(),
                b.as_str(),
            ),
            _ => false,
        }
    }
}

impl Clone for CelKey {
    fn clone(&self) -> (r: Self)
        ensures
            r@ == self@,
    {
        match self {
            CelKey::Int(i) => CelKey::Int(*i),
            CelKey::Uint(u) => CelKey::Uint(*u),
            CelKey::Bool(b) => CelKey::Bool(*b),
            CelKey::String(s) => CelKey::String(s.clone()),
        }
    }
}

/// A value of the expression language.
#[derive(Debug, PartialEq)]
pub enum CelValue {
    Null,
    Bool(bool),
    Int(i64),
    UInt(u64),
    /// A floating-point number, carried as the engine's own value.
    Float(cel::Value),
    /// A JSON number that is no 64-bit integer, carried as it is; to the engine it is a
    /// floating-point number.
    JsonFloat(serde_json::Number),
    String(String),
    Bytes(Vec<u8>),
    /// A span of time, in nanoseconds.
    Duration(i64),
    /// An instant: seconds since the epoch, the nanoseconds within that second, and the
    /// offset from UTC in seconds that it was written with.
    Timestamp { seconds: i64, nanos: u32, offset: i32 },
    List(Vec<CelValue>),
    /// The entries of a map, in the order they were put there. Of two entries with one
    /// key the first is the entry of the map.
    Mapping(Vec<(CelKey, CelValue)>),
    Quantity(KubeQuantity),
    Semver(KubeSemver),
    Ip(KubeIP),
    Cidr(KubeCIDR),
    Url(KubeUrl),
    /// Any other value of the engine, carried as it is.
    Other(cel::Value),
}

/// The mathematical value of a [`CelValue`].
pub enum CelView {
    Null,
    Bool(bool),
    Int(i64),
    UInt(u64),
    Float(cel::Value),
    JsonFloat(serde_json::Number),
    String(Seq<char>),
    Bytes(Seq<u8>),
    Duration(i64),
    Timestamp { seconds: i64, nanos: u32, offset: i32 },
    List(Seq<CelView>),
    Mapping(Seq<(CelKeyView, CelView)>),
    Quantity(KubeQuantity),
    Semver(SemverView),
    Ip(KubeIP),
    Cidr(KubeCIDR),
    Url(UrlView),
    Other(cel::Value),
}

/// The mathematical value of `v`.
pub open spec fn cel_view(v: CelValue) -> CelView
    decreases v,
{
    match v {
        CelValue::Null => CelView::Null,
        CelValue::Bool(b) => CelView::Bool(b),
        CelValue::Int(i) => CelView::Int(i),
        CelValue::UInt(u) => CelView::UInt(u),
        CelValue::Float(f) => CelView::Float(f),
        CelValue::JsonFloat(n) => CelView::JsonFloat(n),
        CelValue::String(s) => CelView::String(s@),
        CelValue::Bytes(b) => CelView::Bytes(b@),
        CelValue::Duration(n) => CelView::Duration(n),
        CelValue::Timestamp { seconds, nanos, offset } => CelView::Timestamp {
            seconds,
            nanos,
            offset,
        },
        CelValue::List(items) => CelView::List(
            Seq::new(
                items@.len(),
                |i: int|
                    if 0 <= i < items@.len() {
                        cel_view(items@[i])
                    } else {
                        CelView::Null
                    },
            ),
        ),
        CelValue::Mapping(entries) => CelView::Mapping(
            Seq::new(
                entries@.len(),
                |i: int|
                    if 0 <= i < entries@.len() {
                        (entries@[i].0@, cel_view(entries@[i].1))
                    } else {
                        (CelKeyView::Bool(false), CelView::Null)
                    },
            ),
        ),
        CelValue::Quantity(q) => CelView::Quantity(q),
        CelValue::Semver(s) => CelView::Semver(s@),
        CelValue::Ip(a) => CelView::Ip(a),
        CelValue::Cidr(c) => CelView::Cidr(c),
        CelValue::Url(u) => CelView::Url(u@),
        CelValue::Other(o) => CelView::Other(o),
    }
}

impl View for CelValue {
    type V = CelView;

    open spec fn view(&self) -> CelView {
        cel_view(*self)
    }
}

impl Clone for CelValue {
    fn clone(&self) -> (r: Self)
        ensures
            r@ == self@,
        decreases self,
    {
        match self {
            CelValue::Null => CelValue::Null,
            CelValue::Bool(b) => CelValue::Bool(*b),
            CelValue::Int(i) => CelValue::Int(*i),
            CelValue::UInt(u) => CelValue::UInt(*u),
            CelValue::Float(f) => CelValue::Float(f.clone()),
            CelValue::JsonFloat(n) => CelValue::JsonFloat(n.clone()),
            CelValue::String(s) => CelValue::String(s.clone()),
            CelValue::Bytes(b) => CelValue::Bytes(b.clone()),
            CelValue::Duration(n) => CelValue::Duration(*n),
            CelValue::Timestamp { seconds, nanos, offset } => CelValue::Timestamp {
                seconds: *seconds,
                nanos: *nanos,
                offset: *offset,
            },
            CelValue::List(items) => {
                let mut out: Vec<CelValue> = Vec::new();
                let mut i: usize = 0;
                while i < items.len()
                    invariant
                        i <= items.len(),
                        out.len() == i,
                        decreases_to!(self => items),
                        forall|j: int| 0 <= j < i ==> (#[trigger] out[j])@ == items[j]@,
                    decreases items.len() - i,
                {
                    let item = items[i].clone();
                    out.push(item);
                    i += 1;
                }
                proof {
                    lemma_list_view(out);
                    lemma_list_view(*items);
                    assert(CelValue::List(out)@.items() =~= CelValue::List(*items)@.items());
                }
                CelValue::List(out)
            },
            CelValue::Mapping(entries) => {
                let mut out: Vec<(CelKey, CelValue)> = Vec::new();
                let mut i: usize = 0;
                while i < entries.len()
                    invariant
                        i <= entries.len(),
                        out.len() == i,
                        decreases_to!(self => entries),
                        forall|j: int|
                            0 <= j < i ==> (#[trigger] out[j]).0@ == entries[j].0@ && out[j].1@
                                == entries[j].1@,
                    decreases entries.len() - i,
                {
                    let key = entries[i].0.clone();
                    let value = entries[i].1.clone();
                    out.push((key, value));
                    i += 1;
                }
                proof {
                    lemma_map_view(out);
                    lemma_map_view(*entries);
                    assert(CelValue::Mapping(out)@.entries() =~= CelValue::Mapping(
                        *entries,
                    )@.entries());
                }
                CelValue::Mapping(out)
            },
            CelValue::Quantity(q) => CelValue::Quantity(*q),
            CelValue::Semver(s) => CelValue::Semver(s.clone()),
            CelValue::Ip(a) => CelValue::Ip(*a),
            CelValue::Cidr(c) => CelValue::Cidr(*c),
            CelValue::Url(u) => CelValue::Url(u.clone()),
            CelValue::Other(o) => CelValue::Other(o.clone()),
        }
    }
}

impl CelView {
    /// The elements of a list, in order; none for any other value.
    pub open spec fn items(self) -> Seq<CelView> {
        match self {
            CelView::List(items) => items,
            _ => Seq::empty(),
        }
    }

    /// The entries of a map, in order; none for any other value.
    pub open spec fn entries(self) -> Seq<(CelKeyView, CelView)> {
        match self {
            CelView::Mapping(entries) => entries,
            _ => Seq::empty(),
        }
    }
}

/// The elements of a list's view are the views of its elements, one for one.
pub proof fn lemma_list_view(items: Vec<CelValue>)
    ensures
        CelValue::List(items)@ is List,
        CelValue::List(items)@.items().len() == items.len(),
        forall|j: int|
            0 <= j < items.len() ==> #[trigger] CelValue::List(items)@.items()[j] == items[j]@,
{
}

/// The entries of a map's view are the views of its entries, one for one.
pub proof fn lemma_map_view(entries: Vec<(CelKey, CelValue)>)
    ensures
        CelValue::Mapping(entries)@ is Mapping,
        CelValue::Mapping(entries)@.entries().len() == entries.len(),
        forall|j: int|
            0 <= j < entries.len() ==> #[trigger] CelValue::Mapping(entries)@.entries()[j] == (
                entries[j].0@,
                entries[j].1@,
            ),
{
}


/// An error of one of this crate's functions: the name of the function and what went wrong.
#[derive(Debug, Clone, PartialEq, Eq)]
pub struct FunctionError {
    pub function: String,
    pub message: String,
}

impl FunctionError {
    /// The error of `function` that says `message`.
    pub fn new(function: &str, message: &str) -> (r: FunctionError)
        ensures
            r.function@ == function@,
            r.message@ == message@,
    {
        FunctionError { function: function.to_owned(), message: message.to_owned() }
    }

    /// Whether this is the error of `function` that says `message`.
    pub open spec fn says(self, function: Seq<char>, message: Seq<char>) -> bool {
        self.function@ == function && self.message@ == message
    }
}

} // verus!
