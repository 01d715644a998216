//! From JSON values to the values that expressions work on.
//!
//! A string that stands where the schema declares `format: date-time` or `format: duration`
//! becomes a timestamp or a duration where it parses as one, and stays a string where it does
//! not.

use vstd::prelude::*;
use crate::compilation::{
    CompiledSchema, CompiledView, compiled_properties, compiled_view, find_property,
};
pub use crate::duration::parse_go_duration;
use crate::duration::go_duration;
use crate::json::{
    JsonNumber, JsonValue, JsonView, lemma_array_view, lemma_object_view, lookup,
};
use crate::model::{CelKey, CelKeyView, CelValue, CelView, lemma_list_view, lemma_map_view};

verus! {

/// The `format` that a schema node declares, as far as this crate reads it.
#[derive(Clone, Copy, Debug, PartialEq, Eq, Structural)]
pub enum SchemaFormat {
    /// `format: "date-time"`: a string here is read as a timestamp.
    DateTime,
    /// `format: "duration"`: a string here is read as a duration.
    Duration,
    /// No format, or one that changes nothing.
    Plain,
}

impl Default for SchemaFormat {
    fn default() -> (r: Self)
        ensures
            r == SchemaFormat::Plain,
    {
        SchemaFormat::Plain
    }
}

/// The format that the schema node `schema` declares.
pub open spec fn schema_format(schema: JsonView) -> SchemaFormat {
    match schema.get("format"@) {
        Some(JsonView::String(s)) => if s == "date-time"@ {
            SchemaFormat::DateTime
        } else if s == "duration"@ {
            SchemaFormat::Duration
        } else {
            SchemaFormat::Plain
        },
        _ => SchemaFormat::Plain,
    }
}

impl SchemaFormat {
    /// Reads the `format` of a schema node.
    pub fn from_schema(schema: &JsonValue) -> (r: Self)
        ensures
            r == schema_format(schema@),
    {
        match schema.get("format") {
            Some(f) => match f.as_str() {
                Some(s) => {
                    if crate::text::same_text(s, "date-time") {
                        SchemaFormat::DateTime
                    } else if crate::text::same_text(s, "duration") {
                        SchemaFormat::Duration
                    } else {
                        SchemaFormat::Plain
                    }
                },
                None => SchemaFormat::Plain,
            },
            None => SchemaFormat::Plain,
        }
    }
}


/// The instant that `DateTime::parse_from_rfc3339` reads from `text`: the seconds since
/// the epoch, the nanoseconds within that second, and the offset from UTC in seconds.
/// Nothing where `text` is no RFC 3339 date and time.
pub uninterp spec fn rfc3339_instant(text: Seq<char>) -> Option<(i64, u32, i32)>;

/// `DateTime::parse_from_rfc3339`, and of the date and time that it gives `timestamp`,
/// `timestamp_subsec_nanos` and the offset's `local_minus_utc`.
///
/// The result is a function of the text alone.
#[verifier::external_body]
fn parse_rfc3339(text: &str) -> (r: Option<(i64, u32, i32)>)
    ensures
        r == rfc3339_instant(text@),
{
    chrono::DateTime::parse_from_rfc3339(text).ok().map(
        |t| (t.timestamp(), t.timestamp_subsec_nanos(), t.offset().local_minus_utc()),
    )
}

/// What expressions see of a JSON number: a signed integer where it fits one, else an
/// unsigned integer where it fits one, else a floating-point number.
pub open spec fn number_value(n: JsonNumber) -> CelView {
    match n {
        JsonNumber::Int(i) => CelView::Int(i),
        JsonNumber::UInt(u) => if u <= i64::MAX as u64 {
            CelView::Int(u as i64)
        } else {
            CelView::UInt(u)
        },
        JsonNumber::Float(f) => CelView::JsonFloat(f),
    }
}

/// What expressions see of the string `s` under the format `format`: a timestamp or a
/// duration where the format asks for one and `s` parses as one, else the string itself.
pub open spec fn string_value(s: Seq<char>, format: SchemaFormat) -> CelView {
    match format {
        SchemaFormat::DateTime => match rfc3339_instant(s) {
            Some((seconds, nanos, offset)) => CelView::Timestamp { seconds, nanos, offset },
            None => CelView::String(s),
        },
        SchemaFormat::Duration => match go_duration(s) {
            Some(n) => CelView::Duration(n as i64),
            None => CelView::String(s),
        },
        SchemaFormat::Plain => CelView::String(s),
    }
}

/// What tells how the strings of a value are read: the format of the value itself, and the
/// schema node that the value stands under, raw or compiled, if any.
pub struct FormatContext {
    pub format: SchemaFormat,
    pub raw: Option<JsonView>,
    pub compiled: Option<CompiledView>,
}

/// The context in which nothing is read as anything but itself.
pub open spec fn plain_context() -> FormatContext {
    FormatContext { format: SchemaFormat::Plain, raw: None, compiled: None }
}

/// The context of a value that stands under the raw schema node `schema`.
pub open spec fn raw_context(schema: JsonView) -> FormatContext {
    FormatContext { format: schema_format(schema), raw: Some(schema), compiled: None }
}

/// The context of a value that stands under the compiled schema node `node`.
pub open spec fn compiled_context(node: CompiledView) -> FormatContext {
    FormatContext { format: node.format, raw: None, compiled: Some(node) }
}

/// The context of the elements of an array that stands in `ctx`: the `items` of the node,
/// if it has any.
pub open spec fn item_context(ctx: FormatContext) -> FormatContext {
    if ctx.raw is Some && ctx.raw->Some_0.get("items"@) is Some {
        raw_context(ctx.raw->Some_0.get("items"@)->Some_0)
    } else if ctx.compiled is Some && ctx.compiled->Some_0.items is Some {
        compiled_context(*ctx.compiled->Some_0.items->Some_0)
    } else {
        plain_context()
    }
}

/// The schema of the member `key` under the raw schema node `schema`: the property of
/// that name if one is declared, else `additionalProperties` if that is an object.
pub open spec fn raw_member(schema: JsonView, key: Seq<char>) -> Option<JsonView> {
    let declared = match schema.get("properties"@) {
        Some(p) => p.get(key),
        None => None,
    };
    match declared {
        Some(s) => Some(s),
        None => match schema.get("additionalProperties"@) {
            Some(a) => if a is Object {
                Some(a)
            } else {
                None
            },
            None => None,
        },
    }
}

/// The compiled schema of the member `key` under the compiled node `node`: the property
/// of that name if one is declared, else the additional properties if there are any.
pub open spec fn compiled_member_of(node: CompiledView, key: Seq<char>) -> Option<CompiledView> {
    match node.property(key) {
        Some(c) => Some(c),
        None => match node.additional_properties {
            Some(a) => Some(*a),
            None => None,
        },
    }
}

/// The context of the member `key` of an object that stands in `ctx`.
pub open spec fn member_context(ctx: FormatContext, key: Seq<char>) -> FormatContext {
    if ctx.raw is Some {
        match raw_member(ctx.raw->Some_0, key) {
            Some(s) => raw_context(s),
            None => plain_context(),
        }
    } else if ctx.compiled is Some {
        match compiled_member_of(ctx.compiled->Some_0, key) {
            Some(c) => compiled_context(c),
            None => plain_context(),
        }
    } else {
        plain_context()
    }
}

/// What expressions see of the JSON value `value` that stands in `ctx`.
///
/// Null, booleans and numbers are themselves. A string is read by the format of `ctx`. An
/// array is the list of its elements and an object the map of its members, each in its
/// own context.
pub open spec fn converted(value: JsonView, ctx: FormatContext) -> CelView
    decreases value,
{
    match value {
        JsonView::Null => CelView::Null,
        JsonView::Bool(b) => CelView::Bool(b),
        JsonView::Number(n) => number_value(n),
        JsonView::String(s) => string_value(s, ctx.format),
        JsonView::Array(items) => CelView::List(
            Seq::new(
                items.len(),
                |i: int|
                    if 0 <= i < items.len() {
                        converted(items[i], item_context(ctx))
                    } else {
                        CelView::Null
                    },
            ),
        ),
        JsonView::Object(entries) => CelView::Mapping(
            Seq::new(
                entries.len(),
                |i: int|
                    if 0 <= i < entries.len() {
                        (
                            CelKeyView::String(entries[i].0),
                            converted(entries[i].1, member_context(ctx, entries[i].0)),
                        )
                    } else {
                        (CelKeyView::Bool(false), CelView::Null)
                    },
            ),
        ),
    }
}

/// The mathematical value of an optional schema node.
pub open spec fn raw_view(raw: Option<&JsonValue>) -> Option<JsonView> {
    match raw {
        Some(s) => Some(s@),
        None => None,
    }
}

/// The mathematical value of an optional compiled schema node.
pub open spec fn compiled_option_view(compiled: Option<&CompiledSchema>) -> Option<CompiledView> {
    match compiled {
        Some(c) => Some(c@),
        None => None,
    }
}

/// The context that a format and an optional schema node, raw or compiled, make.
pub open spec fn context_of(
    format: SchemaFormat,
    raw: Option<&JsonValue>,
    compiled: Option<&CompiledSchema>,
) -> FormatContext {
    FormatContext { format, raw: raw_view(raw), compiled: compiled_option_view(compiled) }
}

fn convert_number(n: &JsonNumber) -> (r: CelValue)
    ensures
        r@ == number_value(*n),
{
    match n {
        JsonNumber::Int(i) => CelValue::Int(*i),
        JsonNumber::UInt(u) => if *u <= i64::MAX as u64 {
            CelValue::Int(*u as i64)
        } else {
            CelValue::UInt(*u)
        },
        JsonNumber::Float(f) => CelValue::JsonFloat(f.clone()),
    }
}

/// Reads a string by the format that its place in the schema declares.
fn convert_string_with_format(s: &str, format: &SchemaFormat) -> (r: CelValue)
    ensures
        r@ == string_value(s@, *format),
{
    match format {
        SchemaFormat::DateTime => match parse_rfc3339(s) {
            Some(t) => CelValue::Timestamp { seconds: t.0, nanos: t.1, offset: t.2 },
            None => CelValue::String(s.to_owned()),
        },
        SchemaFormat::Duration => match parse_go_duration(s) {
            Some(n) => CelValue::Duration(n),
            None => CelValue::String(s.to_owned()),
        },
        SchemaFormat::Plain => CelValue::String(s.to_owned()),
    }
}

/// The context of the elements of an array, from the context of the array.
fn item_context_of<'a>(
    raw_schema: Option<&'a JsonValue>,
    compiled: Option<&'a CompiledSchema>,
) -> (r: (SchemaFormat, Option<&'a JsonValue>, Option<&'a CompiledSchema>))
    ensures
        context_of(r.0, r.1, r.2) == item_context(
            context_of(SchemaFormat::Plain, raw_schema, compiled),
        ),
{
    if let Some(rs) = raw_schema {
        if let Some(items_schema) = rs.get("items") {
            return (SchemaFormat::from_schema(items_schema), Some(items_schema), None);
        }
    }
    if let Some(cs) = compiled {
        if let Some(items_compiled) = &cs.items {
            return (items_compiled.format, None, Some(&**items_compiled));
        }
    }
    (SchemaFormat::Plain, None, None)
}

/// The context of one member of an object, from the context of the object.
fn member_context_of<'a>(
    raw_schema: Option<&'a JsonValue>,
    compiled: Option<&'a CompiledSchema>,
    key: &str,
) -> (r: (SchemaFormat, Option<&'a JsonValue>, Option<&'a CompiledSchema>))
    ensures
        context_of(r.0, r.1, r.2) == member_context(
            context_of(SchemaFormat::Plain, raw_schema, compiled),
            key@,
        ),
{
    if let Some(rs) = raw_schema {
        let declared = match rs.get("properties") {
            Some(p) => p.get(key),
            None => None,
        };
        if let Some(prop_schema) = declared {
            return (SchemaFormat::from_schema(prop_schema), Some(prop_schema), None);
        }
        if let Some(additional) = rs.get("additionalProperties") {
            if additional.is_object() {
                return (SchemaFormat::from_schema(additional), Some(additional), None);
            }
        }
        (SchemaFormat::Plain, None, None)
    } else if let Some(cs) = compiled {
        if let Some(prop_compiled) = cs.property(key) {
            return (prop_compiled.format, None, Some(prop_compiled));
        }
        if let Some(additional) = &cs.additional_properties {
            return (additional.format, None, Some(&**additional));
        }
        (SchemaFormat::Plain, None, None)
    } else {
        (SchemaFormat::Plain, None, None)
    }
}

/// Converts `value`, reading its strings by `format` and those of its parts by the schema
/// node it stands under: `raw_schema` if there is one, else `compiled`.
fn json_to_cel_inner(
    value: &JsonValue,
    format: &SchemaFormat,
    raw_schema: Option<&JsonValue>,
    compiled: Option<&CompiledSchema>,
) -> (r: CelValue)
    ensures
        r@ == converted(value@, context_of(*format, raw_schema, compiled)),
    decreases value,
{
    let ghost ctx = context_of(*format, raw_schema, compiled);
    match value {
        JsonValue::Null => CelValue::Null,
        JsonValue::Bool(b) => CelValue::Bool(*b),
        JsonValue::Number(n) => convert_number(n),
        JsonValue::String(s) => convert_string_with_format(s.as_str(), format),
        JsonValue::Array(arr) => {
            let child = item_context_of(raw_schema, compiled);
            let mut items: Vec<CelValue> = Vec::new();
            let mut i: usize = 0;
            while i < arr.len()
                invariant
                    i <= arr.len(),
                    items.len() == i,
                    decreases_to!(value => arr),
                    context_of(child.0, child.1, child.2) == item_context(ctx),
                    forall|j: int|
                        0 <= j < i ==> (#[trigger] items[j])@ == converted(
                            arr[j]@,
                            item_context(ctx),
                        ),
                decreases arr.len() - i,
            {
                let item = json_to_cel_inner(&arr[i], &child.0, child.1, child.2);
                items.push(item);
                i += 1;
            }
            proof {
                lemma_array_view(*arr);
                lemma_list_view(items);
                assert(CelValue::List(items)@.items() =~= converted(value@, ctx).items());
            }
            CelValue::List(items)
        },
        JsonValue::Object(obj) => {
            let mut map: Vec<(CelKey, CelValue)> = Vec::new();
            let mut i: usize = 0;
            while i < obj.len()
                invariant
                    i <= obj.len(),
                    map.len() == i,
                    decreases_to!(value => obj),
                    ctx == context_of(*format, raw_schema, compiled),
                    forall|j: int|
                        0 <= j < i ==> (#[trigger] map[j]).0@ == CelKeyView::String(obj[j].0@)
                            && map[j].1@ == converted(obj[j].1@, member_context(ctx, obj[j].0@)),
                decreases obj.len() - i,
            {
                let child = member_context_of(raw_schema, compiled, obj[i].0.as_str());
                let child_val = json_to_cel_inner(&obj[i].1, &child.0, child.1, child.2);
                let key = CelKey::String(obj[i].0.clone());
                map.push((key, child_val));
                i += 1;
            }
            proof {
                lemma_object_view(*obj);
                lemma_map_view(map);
                assert(CelValue::Mapping(map)@.entries() =~= converted(value@, ctx).entries());
            }
            CelValue::Mapping(map)
        },
    }
}

/// Converts a JSON value to the value that expressions see, with no schema: every string
/// stays a string.
///
/// A number becomes a signed integer where it fits one, else an unsigned integer where it
/// fits one, else a floating-point number.
pub fn json_to_cel(value: &JsonValue) -> (r: CelValue)
    ensures
        r@ == converted(value@, plain_context()),
{
    json_to_cel_inner(value, &SchemaFormat::Plain, None, None)
}

/// Converts a JSON value that stands under the raw schema node `schema`: a string under
/// `format: date-time` or `format: duration` becomes a timestamp or a duration where it
/// parses as one.
pub fn json_to_cel_with_schema(value: &JsonValue, schema: &JsonValue) -> (r: CelValue)
    ensures
        r@ == converted(value@, raw_context(schema@)),
{
    let format = SchemaFormat::from_schema(schema);
    json_to_cel_inner(value, &format, Some(schema), None)
}

/// Converts a JSON value that stands under the compiled schema node `compiled`, as
/// [`json_to_cel_with_schema`] does under the schema that it was compiled from.
pub fn json_to_cel_with_compiled(value: &JsonValue, compiled: &CompiledSchema) -> (r: CelValue)
    ensures
        r@ == converted(value@, compiled_context(compiled@)),
{
    json_to_cel_inner(value, &compiled.format, None, Some(compiled))
}


/// Looking a property up among compiled properties finds the compiled schema of the
/// property of that name.
pub proof fn lemma_find_property(
    declared: Seq<(Seq<char>, JsonView)>,
    properties: Seq<(Seq<char>, CompiledView)>,
    key: Seq<char>,
)
    requires
        properties.len() == declared.len(),
        forall|i: int|
            0 <= i < declared.len() ==> #[trigger] properties[i] == (
                declared[i].0,
                compiled_view(declared[i].1),
            ),
    ensures
        find_property(properties, key) == match lookup(declared, key) {
            Some(s) => Some(compiled_view(s)),
            None => None,
        },
    decreases declared.len(),
{
    if declared.len() > 0 {
        assert(properties[0] == (declared[0].0, compiled_view(declared[0].1)));
        if declared[0].0 != key {
            let d = declared.drop_first();
            let p = properties.drop_first();
            assert forall|i: int| 0 <= i < d.len() implies #[trigger] p[i] == (
                d[i].0,
                compiled_view(d[i].1),
            ) by {
                assert(p[i] == properties[i + 1]);
            }
            lemma_find_property(d, p, key);
        }
    }
}

/// The compiled schema of a member is the member's schema, compiled.
pub proof fn lemma_compiled_member(schema: JsonView, key: Seq<char>)
    ensures
        compiled_member_of(compiled_view(schema), key) == match raw_member(schema, key) {
            Some(s) => Some(compiled_view(s)),
            None => None,
        },
{
    match schema.get("properties"@) {
        Some(JsonView::Object(declared)) => {
            lemma_find_property(declared, compiled_properties(schema), key);
        },
        _ => {},
    }
}

/// A value converts to the same thing under a schema node and under that node compiled.
pub proof fn lemma_converted_agrees(value: JsonView, schema: JsonView)
    ensures
        converted(value, raw_context(schema)) == converted(
            value,
            compiled_context(compiled_view(schema)),
        ),
    decreases value,
{
    let raw = raw_context(schema);
    let compiled = compiled_context(compiled_view(schema));
    match value {
        JsonView::Array(items) => {
            assert forall|i: int| 0 <= i < items.len() implies converted(
                items[i],
                item_context(raw),
            ) == converted(items[i], item_context(compiled)) by {
                match schema.get("items"@) {
                    Some(s) => {
                        lemma_converted_agrees(items[i], s);
                    },
                    None => {},
                }
            }
            assert(converted(value, raw).items() =~= converted(value, compiled).items());
        },
        JsonView::Object(entries) => {
            assert forall|i: int| 0 <= i < entries.len() implies converted(
                entries[i].1,
                member_context(raw, entries[i].0),
            ) == converted(entries[i].1, member_context(compiled, entries[i].0)) by {
                lemma_compiled_member(schema, entries[i].0);
                match raw_member(schema, entries[i].0) {
                    Some(s) => {
                        lemma_converted_agrees(entries[i].1, s);
                    },
                    None => {},
                }
            }
            assert(converted(value, raw).entries() =~= converted(value, compiled).entries());
        },
        _ => {},
    }
}

} // verus!
