//! The expression engine, as far as the validator needs it: compiling an expression, binding
//! variables, running a program, and reading what came back.
//!
//! What is said here of the engine's own functions is believed, not proved.

use vstd::prelude::*;
use chrono::Offset;
use cel::extractors::{Arguments, This};
use cel::objects::Opaque;
use std::sync::Arc;
use crate::ip::{KubeCIDR, KubeIP};
use crate::model::{CelKey, CelValue, CelView, FunctionError};
use crate::quantity::KubeQuantity;
use crate::semver_funcs::KubeSemver;
use crate::urls::KubeUrl;

verus! {

/// `cel::Program`: a compiled expression.
#[verifier::external_type_specification]
#[verifier::external_body]
pub struct ExProgram(cel::Program);

/// `cel::ParseErrors`: why an expression did not compile.
#[verifier::external_type_specification]
#[verifier::external_body]
pub struct ExParseErrors(cel::ParseErrors);

/// `cel::Context`: the variables and functions that a program runs with.
#[verifier::external_type_specification]
#[verifier::external_body]
pub struct ExContext<'a>(cel::Context<'a>);

/// Whether `Program::compile` accepts `text`.
pub uninterp spec fn expression_parses(text: Seq<char>) -> bool;

/// Whether the program that `Program::compile` makes of `text` refers to `variable`.
pub uninterp spec fn expression_references(text: Seq<char>, variable: Seq<char>) -> bool;

/// `Program::compile` on `text`, then `Program::references` and
/// `ExpressionReferences::has_variable` on the program it gave.
///
/// Compiling is a function of the text alone: it succeeds exactly on the texts that
/// `expression_parses` holds of, and the flag beside the program says whether the program
/// refers to `variable`.
#[verifier::external_body]
pub(crate) fn compile_expression(text: &str, variable: &str) -> (r: Result<
    (cel::Program, bool),
    cel::ParseErrors,
>)
    ensures
        r is Ok <==> expression_parses(text@),
        r matches Ok(p) ==> p.1 == expression_references(text@, variable@),
{
    cel::Program::compile(text).map(
        |program|
            {
                let mentioned = program.references().has_variable(variable);
                (program, mentioned)
            },
    )
}

/// The place of each of the errors that a `cel::ParseErrors` holds, in order: the field
/// `pos` of each element of its field `errors`, a line and a column.
pub uninterp spec fn error_places(errors: cel::ParseErrors) -> Seq<(int, int)>;

/// Whether `Display` can point to every error. It looks up the line before the error's
/// own, and writes the pointer with the column as its width: the line is not negative,
/// and the column is a width, which has 16 bits.
pub open spec fn places_fit(errors: cel::ParseErrors) -> bool {
    forall|i: int|
        0 <= i < error_places(errors).len() ==> {
            let place = #[trigger] error_places(errors)[i];
            0 <= place.0 && 0 <= place.1 <= u16::MAX
        }
}

/// The field `pos` of each element of the field `errors` of a `cel::ParseErrors`.
#[verifier::external_body]
pub(crate) fn error_places_of(errors: &cel::ParseErrors) -> (r: Vec<(isize, isize)>)
    ensures
        r@.len() == error_places(*errors).len(),
        forall|i: int|
            0 <= i < r@.len() ==> (r@[i].0 as int, r@[i].1 as int) == #[trigger] error_places(
                *errors,
            )[i],
{
    errors.errors.iter().map(|e| e.pos).collect()
}

/// `Display` of `cel::ParseErrors`: the parser's own account of what is wrong, with a
/// pointer to the place of each error, so every place has to fit.
#[verifier::external_body]
pub(crate) fn parse_errors_text(errors: &cel::ParseErrors) -> (r: String)
    requires
        places_fit(*errors),
{
    errors.to_string()
}

/// The parser's account of what is wrong with an expression, where it can be written out:
/// where an error stands at a place beyond what a pointer can be written for, a line
/// that says so.
pub fn parse_detail(errors: &cel::ParseErrors) -> (r: String)
    ensures
        !places_fit(*errors) ==> r@ == "the expression fails at a place that cannot be shown"@,
{
    let places = error_places_of(errors);
    let mut i: usize = 0;
    while i < places.len()
        invariant
            i <= places.len(),
            places@.len() == error_places(*errors).len(),
            forall|j: int|
                0 <= j < places@.len() ==> (places@[j].0 as int, places@[j].1 as int)
                    == #[trigger] error_places(*errors)[j],
            forall|j: int|
                0 <= j < i ==> {
                    let place = #[trigger] error_places(*errors)[j];
                    0 <= place.0 && 0 <= place.1 <= u16::MAX
                },
        decreases places.len() - i,
    {
        if places[i].0 < 0 || places[i].1 < 0 || places[i].1 > 65535 {
            assert(!places_fit(*errors)) by {
                let place = error_places(*errors)[i as int];
                assert(!(0 <= place.0 && 0 <= place.1 <= u16::MAX));
            }
            return "the expression fails at a place that cannot be shown".to_owned();
        }
        i += 1;
    }
    parse_errors_text(errors)
}


/// `cel::objects::Key`: the key of a map entry, as the engine holds it.
#[verifier::external_type_specification]
#[verifier::external_body]
pub struct ExKey(cel::objects::Key);

/// The names of the functions that a context holds: those under which a program that runs
/// with it finds a function.
pub uninterp spec fn function_names(ctx: cel::Context<'_>) -> Set<Seq<char>>;

/// Whether a context stands by itself, as `Context::Root`, and is no inner scope of
/// another. Functions are added to such a context only.
pub uninterp spec fn is_root(ctx: cel::Context<'_>) -> bool;

/// What adding a function under `name` makes of a context: a context that stands by
/// itself holds the name from then on, an inner scope is left as it is.
pub open spec fn function_added(
    before: cel::Context<'_>,
    after: cel::Context<'_>,
    name: Seq<char>,
) -> bool {
    is_root(after) == is_root(before) && function_names(after) == if is_root(before) {
        function_names(before).insert(name)
    } else {
        function_names(before)
    }
}

/// What adding functions under each of `names` makes of a context: a context that stands
/// by itself holds all of them from then on, besides those it held; an inner scope is
/// left as it is.
pub open spec fn functions_added(
    before: cel::Context<'_>,
    after: cel::Context<'_>,
    names: Set<Seq<char>>,
) -> bool {
    is_root(after) == is_root(before) && function_names(after) == if is_root(before) {
        function_names(before).union(names)
    } else {
        function_names(before)
    }
}

/// `Context::default`: a context that stands by itself, with the engine's built-in
/// functions and no variables.
#[verifier::external_body]
pub(crate) fn new_context() -> (r: cel::Context<'static>)
    ensures
        is_root(r),
{
    cel::Context::default()
}

/// `Context::add_variable_from_value`: binds `name` to `value`. The functions of the
/// context stay as they are.
#[verifier::external_body]
pub(crate) fn bind(ctx: &mut cel::Context<'_>, name: &str, value: cel::Value)
    ensures
        is_root(*final(ctx)) == is_root(*old(ctx)),
        function_names(*final(ctx)) == function_names(*old(ctx)),
{
    ctx.add_variable_from_value(name, value)
}

/// `Display` of `cel::ExecutionError`: the engine's own account of what went wrong.
#[verifier::external_body]
pub(crate) fn execution_error_text(error: &cel::ExecutionError) -> (r: String) {
    error.to_string()
}

/// `ExecutionError::function_error`: the error of the function `function`, with `message`.
#[verifier::external_body]
pub(crate) fn function_error(function: &str, message: &str) -> (r: cel::ExecutionError) {
    cel::ExecutionError::function_error(function, message)
}

/// `Value::Null`.
#[verifier::external_body]
pub(crate) fn null_value() -> (r: cel::Value) {
    cel::Value::Null
}

/// `Value::Bool`.
#[verifier::external_body]
pub(crate) fn bool_value(b: bool) -> (r: cel::Value) {
    cel::Value::Bool(b)
}

/// `Value::Int`.
#[verifier::external_body]
pub(crate) fn int_value(i: i64) -> (r: cel::Value) {
    cel::Value::Int(i)
}

/// `Value::UInt`.
#[verifier::external_body]
pub(crate) fn uint_value(u: u64) -> (r: cel::Value) {
    cel::Value::UInt(u)
}

/// `Value::Float` of `Number::as_f64`; zero where the number has no such reading.
#[verifier::external_body]
pub(crate) fn json_float_value(n: &serde_json::Number) -> (r: cel::Value) {
    cel::Value::Float(n.as_f64().unwrap_or_default())
}

/// `Value::String`.
#[verifier::external_body]
pub(crate) fn string_value_of(s: &str) -> (r: cel::Value) {
    cel::Value::String(std::sync::Arc::new(s.to_string()))
}

/// `Value::Bytes`.
#[verifier::external_body]
pub(crate) fn bytes_value(b: &Vec<u8>) -> (r: cel::Value) {
    cel::Value::Bytes(std::sync::Arc::new(b.clone()))
}

/// `Value::Duration` of `Duration::nanoseconds`.
#[verifier::external_body]
pub(crate) fn duration_value(nanos: i64) -> (r: cel::Value) {
    cel::Value::Duration(chrono::Duration::nanoseconds(nanos))
}

/// `Value::Timestamp` of `DateTime::from_timestamp`, moved to the offset that
/// `FixedOffset::east_opt` makes; the epoch where the parts name no instant.
#[verifier::external_body]
pub(crate) fn timestamp_value(seconds: i64, nanos: u32, offset: i32) -> (r: cel::Value) {
    let zone = chrono::FixedOffset::east_opt(offset).unwrap_or(chrono::Utc.fix());
    let instant = chrono::DateTime::from_timestamp(seconds, nanos).unwrap_or_default();
    cel::Value::Timestamp(instant.with_timezone(&zone))
}

/// `Value::List`.
#[verifier::external_body]
pub(crate) fn list_value(items: Vec<cel::Value>) -> (r: cel::Value) {
    cel::Value::List(std::sync::Arc::new(items))
}

/// `Value::Map`, of a hash map collected from `entries`.
#[verifier::external_body]
pub(crate) fn map_value(entries: Vec<(cel::objects::Key, cel::Value)>) -> (r: cel::Value) {
    cel::Value::Map(cel::objects::Map { map: std::sync::Arc::new(entries.into_iter().collect()) })
}

/// `Key::Int`.
#[verifier::external_body]
pub(crate) fn int_key(i: i64) -> (r: cel::objects::Key) {
    cel::objects::Key::Int(i)
}

/// `Key::Uint`.
#[verifier::external_body]
pub(crate) fn uint_key(u: u64) -> (r: cel::objects::Key) {
    cel::objects::Key::Uint(u)
}

/// `Key::Bool`.
#[verifier::external_body]
pub(crate) fn bool_key(b: bool) -> (r: cel::objects::Key) {
    cel::objects::Key::Bool(b)
}

/// `Key::String`.
#[verifier::external_body]
pub(crate) fn string_key(s: &str) -> (r: cel::objects::Key) {
    cel::objects::Key::String(std::sync::Arc::new(s.to_string()))
}


/// `Value::Opaque` of a quantity.
#[verifier::external_body]
pub(crate) fn quantity_value(q: KubeQuantity) -> (r: cel::Value) {
    cel::Value::from(Arc::<dyn Opaque>::from(Box::<dyn Opaque>::from(Box::new(q))))
}

/// `Value::Opaque` of a semantic version.
#[verifier::external_body]
pub(crate) fn semver_value(v: KubeSemver) -> (r: cel::Value) {
    cel::Value::from(Arc::<dyn Opaque>::from(Box::<dyn Opaque>::from(Box::new(v))))
}

/// `Value::Opaque` of an IP address.
#[verifier::external_body]
pub(crate) fn ip_value(a: KubeIP) -> (r: cel::Value) {
    cel::Value::from(Arc::<dyn Opaque>::from(Box::<dyn Opaque>::from(Box::new(a))))
}

/// `Value::Opaque` of a CIDR block.
#[verifier::external_body]
pub(crate) fn cidr_value(c: KubeCIDR) -> (r: cel::Value) {
    cel::Value::from(Arc::<dyn Opaque>::from(Box::<dyn Opaque>::from(Box::new(c))))
}

/// `Value::Opaque` of a URL.
#[verifier::external_body]
pub(crate) fn url_value(u: KubeUrl) -> (r: cel::Value) {
    cel::Value::from(Arc::<dyn Opaque>::from(Box::<dyn Opaque>::from(Box::new(u))))
}

/// What an engine value holds, told apart by the variant of `cel::Value`: a list by its
/// elements and a map by its entries, each read the same way, an opaque value by
/// [`from_opaque`], and any other by [`from_atom`]. The entries of a map come in the
/// order its hash map walks them.
#[verifier::external_body]
pub(crate) fn from_cel(v: &cel::Value) -> (r: CelValue) {
    match v {
        cel::Value::List(l) => CelValue::List(l.iter().map(from_cel).collect()),
        cel::Value::Map(m) => CelValue::Mapping(
            m.map.iter().map(|(k, v)| (from_key(k), from_cel(v))).collect(),
        ),
        cel::Value::Opaque(_) => from_opaque(v),
        _ => from_atom(v),
    }
}

/// What an engine value that has no parts holds, told apart by the variant of
/// `cel::Value`: null, booleans, integers, strings and bytes by their content, and
/// anything else carried as it is.
#[verifier::external_body]
pub(crate) fn from_atom(v: &cel::Value) -> (r: CelValue) {
    match v {
        cel::Value::Null => CelValue::Null,
        cel::Value::Bool(b) => CelValue::Bool(*b),
        cel::Value::Int(i) => CelValue::Int(*i),
        cel::Value::UInt(u) => CelValue::UInt(*u),
        cel::Value::Float(_) => CelValue::Float(v.clone()),
        cel::Value::String(s) => CelValue::String(s.to_string()),
        cel::Value::Bytes(b) => CelValue::Bytes(b.to_vec()),
        _ => CelValue::Other(v.clone()),
    }
}

/// What a key of the engine holds, told apart by the variant of `cel::objects::Key`.
#[verifier::external_body]
pub(crate) fn from_key(k: &cel::objects::Key) -> (r: CelKey) {
    match k {
        cel::objects::Key::Int(i) => CelKey::Int(*i),
        cel::objects::Key::Uint(u) => CelKey::Uint(*u),
        cel::objects::Key::Bool(b) => CelKey::Bool(*b),
        cel::objects::Key::String(s) => CelKey::String(s.to_string()),
    }
}

/// What an opaque value of the engine holds, told apart by `Opaque::downcast_ref`: one of
/// this crate's own kinds, or else the value carried as it is.
#[verifier::external_body]
pub(crate) fn from_opaque(v: &cel::Value) -> (r: CelValue) {
    let cel::Value::Opaque(o) = v else { return CelValue::Other(v.clone()) };
    if let Some(q) = o.downcast_ref::<KubeQuantity>() {
        CelValue::Quantity(*q)
    } else if let Some(s) = o.downcast_ref::<KubeSemver>() {
        CelValue::Semver(s.clone())
    } else if let Some(a) = o.downcast_ref::<KubeIP>() {
        CelValue::Ip(*a)
    } else if let Some(c) = o.downcast_ref::<KubeCIDR>() {
        CelValue::Cidr(*c)
    } else if let Some(u) = o.downcast_ref::<KubeUrl>() {
        CelValue::Url(u.clone())
    } else {
        CelValue::Other(v.clone())
    }
}


/// The engine's key for `k`.
pub fn to_key(k: &CelKey) -> (r: cel::objects::Key) {
    match k {
        CelKey::Int(i) => int_key(*i),
        CelKey::Uint(u) => uint_key(*u),
        CelKey::Bool(b) => bool_key(*b),
        CelKey::String(s) => string_key(s.as_str()),
    }
}

/// Whether no entry before the one at `index` has its key.
pub fn key_leads(entries: &Vec<(CelKey, CelValue)>, index: usize) -> (r: bool)
    requires
        index < entries.len(),
    ensures
        r == forall|j: int| 0 <= j < index ==> (#[trigger] entries[j]).0@ != entries[index as int].0@,
{
    let mut j: usize = 0;
    while j < index
        invariant
            j <= index < entries.len(),
            forall|k: int| 0 <= k < j ==> (#[trigger] entries[k]).0@ != entries[index as int].0@,
        decreases index - j,
    {
        if entries[j].0.same(&entries[index].0) {
            return false;
        }
        j += 1;
    }
    true
}

/// The engine's value for `v`: each kind of value by its own constructor, a list and a
/// map part by part. Of two entries of a map with one key, the first is handed over.
pub fn to_cel(v: &CelValue) -> (r: cel::Value)
    decreases v,
{
    match v {
        CelValue::Null => null_value(),
        CelValue::Bool(b) => bool_value(*b),
        CelValue::Int(i) => int_value(*i),
        CelValue::UInt(u) => uint_value(*u),
        CelValue::Float(f) => f.clone(),
        CelValue::JsonFloat(n) => json_float_value(n),
        CelValue::String(s) => string_value_of(s.as_str()),
        CelValue::Bytes(b) => bytes_value(b),
        CelValue::Duration(n) => duration_value(*n),
        CelValue::Timestamp { seconds, nanos, offset } => timestamp_value(
            *seconds,
            *nanos,
            *offset,
        ),
        CelValue::List(items) => {
            let mut out: Vec<cel::Value> = Vec::new();
            let mut i: usize = 0;
            while i < items.len()
                invariant
                    i <= items.len(),
                    decreases_to!(v => items),
                decreases items.len() - i,
            {
                out.push(to_cel(&items[i]));
                i += 1;
            }
            list_value(out)
        },
        CelValue::Mapping(entries) => {
            let mut out: Vec<(cel::objects::Key, cel::Value)> = Vec::new();
            let mut i: usize = 0;
            while i < entries.len()
                invariant
                    i <= entries.len(),
                    decreases_to!(v => entries),
                decreases entries.len() - i,
            {
                if key_leads(entries, i) {
                    let key = to_key(&entries[i].0);
                    let value = to_cel(&entries[i].1);
                    out.push((key, value));
                }
                i += 1;
            }
            map_value(out)
        },
        CelValue::Quantity(q) => quantity_value(*q),
        CelValue::Semver(s) => semver_value(s.clone()),
        CelValue::Ip(a) => ip_value(*a),
        CelValue::Cidr(c) => cidr_value(*c),
        CelValue::Url(u) => url_value(u.clone()),
        CelValue::Other(o) => o.clone(),
    }
}


/// What the engine is handed for the outcome of one of this crate's functions.
pub fn into_result(outcome: Result<CelValue, FunctionError>) -> (r: Result<
    cel::Value,
    cel::ExecutionError,
>)
    ensures
        r is Ok <==> outcome is Ok,
{
    match outcome {
        Ok(v) => Ok(to_cel(&v)),
        Err(e) => Err(function_error(e.function.as_str(), e.message.as_str())),
    }
}

/// `Context::add_function`, for a function of a string that is called on it: the
/// engine hands over the target of the call where it is a string.
#[verifier::external_body]
pub(crate) fn add_text_method<F>(ctx: &mut cel::Context<'_>, name: &str, f: F) where
    F: Fn(&str) -> Result<CelValue, FunctionError> + Send + Sync + 'static,

    requires
        forall|this: &str| call_requires(f, (this,)),
    ensures
        function_added(*old(ctx), *final(ctx), name@),
{
    ctx.add_function(name, move |This(this): This<Arc<String>>| into_result(f(this.as_str())));
}

/// `Context::add_function`, for a function of one string argument.
#[verifier::external_body]
pub(crate) fn add_text_function<F>(ctx: &mut cel::Context<'_>, name: &str, f: F) where
    F: Fn(&str) -> Result<CelValue, FunctionError> + Send + Sync + 'static,

    requires
        forall|text: &str| call_requires(f, (text,)),
    ensures
        function_added(*old(ctx), *final(ctx), name@),
{
    ctx.add_function(name, move |text: Arc<String>| into_result(f(text.as_str())));
}

/// `Context::add_function`, for a function called on a string with one integer argument.
#[verifier::external_body]
pub(crate) fn add_text_index_method<F>(ctx: &mut cel::Context<'_>, name: &str, f: F) where
    F: Fn(&str, i64) -> Result<CelValue, FunctionError> + Send + Sync + 'static,

    requires
        forall|this: &str, index: i64| call_requires(f, (this, index)),
    ensures
        function_added(*old(ctx), *final(ctx), name@),
{
    ctx.add_function(
        name,
        move |This(this): This<Arc<String>>, index: i64| into_result(f(this.as_str(), index)),
    );
}

/// `Context::add_function`, for a function called on a string with one string argument.
#[verifier::external_body]
pub(crate) fn add_text_text_method<F>(ctx: &mut cel::Context<'_>, name: &str, f: F) where
    F: Fn(&str, &str) -> Result<CelValue, FunctionError> + Send + Sync + 'static,

    requires
        forall|this: &str, other: &str| call_requires(f, (this, other)),
    ensures
        function_added(*old(ctx), *final(ctx), name@),
{
    ctx.add_function(
        name,
        move |This(this): This<Arc<String>>, other: Arc<String>|
            into_result(f(this.as_str(), other.as_str())),
    );
}

/// `Context::add_function`, for a function called on a string with one argument of any
/// kind.
#[verifier::external_body]
pub(crate) fn add_text_value_method<F>(ctx: &mut cel::Context<'_>, name: &str, f: F) where
    F: Fn(&str, &CelValue) -> Result<CelValue, FunctionError> + Send + Sync + 'static,

    requires
        forall|this: &str, other: &CelValue| call_requires(f, (this, other)),
    ensures
        function_added(*old(ctx), *final(ctx), name@),
{
    ctx.add_function(
        name,
        move |This(this): This<Arc<String>>, other: cel::Value|
            into_result(f(this.as_str(), &from_cel(&other))),
    );
}

/// `Context::add_function`, for a function called on a string with all the arguments of
/// the call.
#[verifier::external_body]
pub(crate) fn add_text_variadic_method<F>(ctx: &mut cel::Context<'_>, name: &str, f: F) where
    F: Fn(&str, &Vec<CelValue>) -> Result<CelValue, FunctionError> + Send + Sync + 'static,

    requires
        forall|this: &str, args: &Vec<CelValue>| call_requires(f, (this, args)),
    ensures
        function_added(*old(ctx), *final(ctx), name@),
{
    ctx.add_function(
        name,
        move |This(this): This<Arc<String>>, Arguments(args): Arguments|
            into_result(f(this.as_str(), &args.iter().map(from_cel).collect())),
    );
}

/// `Context::add_function`, for a function called on a list.
#[verifier::external_body]
pub(crate) fn add_list_method<F>(ctx: &mut cel::Context<'_>, name: &str, f: F) where
    F: Fn(&Vec<CelValue>) -> Result<CelValue, FunctionError> + Send + Sync + 'static,

    requires
        forall|this: &Vec<CelValue>| call_requires(f, (this,)),
    ensures
        function_added(*old(ctx), *final(ctx), name@),
{
    ctx.add_function(
        name,
        move |This(this): This<Arc<Vec<cel::Value>>>|
            into_result(f(&this.iter().map(from_cel).collect())),
    );
}

/// `Context::add_function`, for a function called on a list with two integer arguments.
#[verifier::external_body]
pub(crate) fn add_list_range_method<F>(ctx: &mut cel::Context<'_>, name: &str, f: F) where
    F: Fn(&Vec<CelValue>, i64, i64) -> Result<CelValue, FunctionError> + Send + Sync + 'static,

    requires
        forall|this: &Vec<CelValue>, a: i64, b: i64| call_requires(f, (this, a, b)),
    ensures
        function_added(*old(ctx), *final(ctx), name@),
{
    ctx.add_function(
        name,
        move |This(this): This<Arc<Vec<cel::Value>>>, a: i64, b: i64|
            into_result(f(&this.iter().map(from_cel).collect(), a, b)),
    );
}

/// `Context::add_function`, for a function called on a list with all the arguments of the
/// call.
#[verifier::external_body]
pub(crate) fn add_list_variadic_method<F>(ctx: &mut cel::Context<'_>, name: &str, f: F) where
    F: Fn(&Vec<CelValue>, &Vec<CelValue>) -> Result<CelValue, FunctionError> + Send + Sync
        + 'static,

    requires
        forall|this: &Vec<CelValue>, args: &Vec<CelValue>| call_requires(f, (this, args)),
    ensures
        function_added(*old(ctx), *final(ctx), name@),
{
    ctx.add_function(
        name,
        move |This(this): This<Arc<Vec<cel::Value>>>, Arguments(args): Arguments|
            into_result(
                f(&this.iter().map(from_cel).collect(), &args.iter().map(from_cel).collect()),
            ),
    );
}

/// `Context::add_function`, for a function of two list arguments.
#[verifier::external_body]
pub(crate) fn add_list_pair_function<F>(ctx: &mut cel::Context<'_>, name: &str, f: F) where
    F: Fn(&Vec<CelValue>, &Vec<CelValue>) -> Result<CelValue, FunctionError> + Send + Sync
        + 'static,

    requires
        forall|a: &Vec<CelValue>, b: &Vec<CelValue>| call_requires(f, (a, b)),
    ensures
        function_added(*old(ctx), *final(ctx), name@),
{
    ctx.add_function(
        name,
        move |a: Arc<Vec<cel::Value>>, b: Arc<Vec<cel::Value>>|
            into_result(f(&a.iter().map(from_cel).collect(), &b.iter().map(from_cel).collect())),
    );
}

/// `Context::add_function`, for a function called on a value of any kind.
#[verifier::external_body]
pub(crate) fn add_value_method<F>(ctx: &mut cel::Context<'_>, name: &str, f: F) where
    F: Fn(&CelValue) -> Result<CelValue, FunctionError> + Send + Sync + 'static,

    requires
        forall|this: &CelValue| call_requires(f, (this,)),
    ensures
        function_added(*old(ctx), *final(ctx), name@),
{
    ctx.add_function(name, move |This(this): This<cel::Value>| into_result(f(&from_cel(&this))));
}

/// `Context::add_function`, for a function called on a value of any kind with one
/// argument of any kind.
#[verifier::external_body]
pub(crate) fn add_value_value_method<F>(ctx: &mut cel::Context<'_>, name: &str, f: F) where
    F: Fn(&CelValue, &CelValue) -> Result<CelValue, FunctionError> + Send + Sync + 'static,

    requires
        forall|this: &CelValue, other: &CelValue| call_requires(f, (this, other)),
    ensures
        function_added(*old(ctx), *final(ctx), name@),
{
    ctx.add_function(
        name,
        move |This(this): This<cel::Value>, other: cel::Value|
            into_result(f(&from_cel(&this), &from_cel(&other))),
    );
}

/// `Context::add_function`, for a function called on a value of any kind with all the
/// arguments of the call.
#[verifier::external_body]
pub(crate) fn add_value_variadic_method<F>(ctx: &mut cel::Context<'_>, name: &str, f: F) where
    F: Fn(&CelValue, &Vec<CelValue>) -> Result<CelValue, FunctionError> + Send + Sync + 'static,

    requires
        forall|this: &CelValue, args: &Vec<CelValue>| call_requires(f, (this, args)),
    ensures
        function_added(*old(ctx), *final(ctx), name@),
{
    ctx.add_function(
        name,
        move |This(this): This<cel::Value>, Arguments(args): Arguments|
            into_result(f(&from_cel(&this), &args.iter().map(from_cel).collect())),
    );
}


/// `Value::Float` of the whole number `n`, as the floating-point number nearest to it.
#[verifier::external_body]
pub(crate) fn wide_as_float(n: i128) -> (r: cel::Value) {
    cel::Value::Float(n as _)
}

/// `f64::powi`, on the floating-point number that `base` holds: the number to the power
/// of `exponent`. Any other value as it is.
#[verifier::external_body]
pub(crate) fn float_power(base: &cel::Value, exponent: i32) -> (r: cel::Value) {
    match base {
        cel::Value::Float(f) => cel::Value::Float(f.powi(exponent)),
        other => other.clone(),
    }
}

/// `Mul::mul` of `cel::Value`, for two floating-point numbers: their product; null where
/// the engine gives none.
#[verifier::external_body]
pub(crate) fn float_product(a: &cel::Value, b: &cel::Value) -> (r: cel::Value) {
    (a.clone() * b.clone()).unwrap_or(cel::Value::Null)
}

/// `Debug` of `Value::type_of`: the name of the kind of value that `v` is.
#[verifier::external_body]
pub(crate) fn kind_text(v: &cel::Value) -> (r: String) {
    format!("{:?}", v.type_of())
}

/// `Debug` of `cel::Value`.
#[verifier::external_body]
pub(crate) fn debug_text(v: &cel::Value) -> (r: String) {
    format!("{v:?}")
}

/// Whether `v` is an opaque value of the engine, told by the variant of `cel::Value`.
#[verifier::external_body]
pub(crate) fn holds_opaque(v: &cel::Value) -> (r: bool) {
    match v {
        cel::Value::Opaque(_) => true,
        _ => false,
    }
}

/// Whether `v` is a value that the engine holds as opaque: one of this crate's own kinds,
/// or another's.
pub fn is_opaque(v: &CelValue) -> (r: bool)
    ensures
        v@ is Quantity || v@ is Semver || v@ is Ip || v@ is Cidr || v@ is Url ==> r,
        r ==> v@ is Quantity || v@ is Semver || v@ is Ip || v@ is Cidr || v@ is Url || v@ is Other,
{
    match v {
        CelValue::Quantity(_) | CelValue::Semver(_) | CelValue::Ip(_) | CelValue::Cidr(_)
        | CelValue::Url(_) => true,
        CelValue::Other(o) => holds_opaque(o),
        _ => false,
    }
}

/// The name that the engine writes for the kind of a value: that of the variant of
/// `cel::Value` that [`to_cel`] makes of it. Nothing is said here of a value that is
/// carried as the engine's own: the engine names it.
pub open spec fn kind_name(v: CelView) -> Option<Seq<char>> {
    match v {
        CelView::Null => Some("Null"@),
        CelView::Bool(_) => Some("Bool"@),
        CelView::Int(_) => Some("Int"@),
        CelView::UInt(_) => Some("UInt"@),
        CelView::JsonFloat(_) => Some("Float"@),
        CelView::String(_) => Some("String"@),
        CelView::Bytes(_) => Some("Bytes"@),
        CelView::Duration(_) => Some("Duration"@),
        CelView::Timestamp { .. } => Some("Timestamp"@),
        CelView::List(_) => Some("List"@),
        CelView::Mapping(_) => Some("Map"@),
        CelView::Quantity(_) => Some("Opaque"@),
        CelView::Semver(_) => Some("Opaque"@),
        CelView::Ip(_) => Some("Opaque"@),
        CelView::Cidr(_) => Some("Opaque"@),
        CelView::Url(_) => Some("Opaque"@),
        CelView::Float(_) => None,
        CelView::Other(_) => None,
    }
}

/// The name of the kind of value that `v` is, as the engine writes it.
pub fn kind_text_of(v: &CelValue) -> (r: String)
    ensures
        kind_name(v@) matches Some(name) ==> r@ == name,
{
    match v {
        CelValue::Null => "Null".to_owned(),
        CelValue::Bool(_) => "Bool".to_owned(),
        CelValue::Int(_) => "Int".to_owned(),
        CelValue::UInt(_) => "UInt".to_owned(),
        CelValue::JsonFloat(_) => "Float".to_owned(),
        CelValue::String(_) => "String".to_owned(),
        CelValue::Bytes(_) => "Bytes".to_owned(),
        CelValue::Duration(_) => "Duration".to_owned(),
        CelValue::Timestamp { .. } => "Timestamp".to_owned(),
        CelValue::List(_) => "List".to_owned(),
        CelValue::Mapping(_) => "Map".to_owned(),
        CelValue::Quantity(_) | CelValue::Semver(_) | CelValue::Ip(_) | CelValue::Cidr(_)
        | CelValue::Url(_) => "Opaque".to_owned(),
        CelValue::Float(f) => kind_text(f),
        CelValue::Other(o) => kind_text(o),
    }
}


/// `PartialEq::eq` of `cel::Value`, for two floating-point numbers: whether they are equal
/// as such numbers are.
#[verifier::external_body]
pub(crate) fn float_equal(a: &cel::Value, b: &cel::Value) -> (r: bool) {
    a == b
}

/// `PartialOrd::lt` of `cel::Value`, for two floating-point numbers: whether the first is
/// the smaller.
#[verifier::external_body]
pub(crate) fn float_less(a: &cel::Value, b: &cel::Value) -> (r: bool) {
    a < b
}

/// `Add::add` of `cel::Value`, for two floating-point numbers: their sum; null where the
/// engine gives none.
#[verifier::external_body]
pub(crate) fn float_sum(a: &cel::Value, b: &cel::Value) -> (r: cel::Value) {
    (a.clone() + b.clone()).unwrap_or(cel::Value::Null)
}


/// `f64::trunc`, on the floating-point number that `value` holds: the number without its
/// fraction. Any other value as it is.
#[verifier::external_body]
pub(crate) fn float_truncated(value: &cel::Value) -> (r: cel::Value) {
    match value {
        cel::Value::Float(f) => cel::Value::Float(f.trunc()),
        other => other.clone(),
    }
}

/// `f64::is_finite`, on the floating-point number that `value` holds; false for any other
/// value.
#[verifier::external_body]
pub(crate) fn float_is_finite(value: &cel::Value) -> (r: bool) {
    match value {
        cel::Value::Float(f) => f.is_finite(),
        _ => false,
    }
}

/// `Display` of the floating-point number that `value` holds; the empty text for any
/// other value.
#[verifier::external_body]
pub(crate) fn float_display(value: &cel::Value) -> (r: String) {
    match value {
        cel::Value::Float(f) => f.to_string(),
        _ => String::new(),
    }
}

/// The floating-point number that `value` holds, formatted with `precision` decimals; the
/// empty text for any other value. A precision of 16 bits is one that formatting takes.
#[verifier::external_body]
pub(crate) fn float_fixed(value: &cel::Value, precision: u16) -> (r: String) {
    match value {
        cel::Value::Float(f) => format!("{f:.precision$}", precision = usize::from(precision)),
        _ => String::new(),
    }
}

/// The floating-point number that `value` holds, formatted in scientific notation with
/// `precision` decimals; the empty text for any other value. A precision of 16 bits is
/// one that formatting takes.
#[verifier::external_body]
pub(crate) fn float_scientific(value: &cel::Value, precision: u16) -> (r: String) {
    match value {
        cel::Value::Float(f) => format!("{f:.precision$e}", precision = usize::from(precision)),
        _ => String::new(),
    }
}

/// `Value::Float` of the integer that `value` holds, as the floating-point number nearest
/// to it. Any other value as it is.
#[verifier::external_body]
pub(crate) fn integer_as_float(value: &cel::Value) -> (r: cel::Value) {
    match value {
        cel::Value::Int(n) => cel::Value::Float(*n as _),
        cel::Value::UInt(n) => cel::Value::Float(*n as _),
        other => other.clone(),
    }
}

} // verus!
