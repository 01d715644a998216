//! Validation rules for Kubernetes resources.
//!
//! A schema declares rules as expressions in the Common Expression Language. This crate
//! compiles the rules of a schema, evaluates them against an object and, for an update,
//! the object's prior version, and reports each failure with the path of the field it
//! is about. It also gives the expressions the functions that Kubernetes adds to the
//! language: strings, lists, sets, regular expressions, URLs, IP addresses, semantic
//! versions, formatting and quantities.

use vstd::prelude::*;

pub mod compilation;
pub mod dispatch;
pub mod duration;
pub mod engine;
pub mod format;
pub mod ip;
pub mod json;
pub mod lists;
pub mod model;
pub mod quantity;
pub mod regex_funcs;
pub mod semver_funcs;
pub mod sets;
pub mod strings;
pub mod text;
pub mod urls;
pub mod validation;
pub mod values;

verus! {

/// The names of all the functions of this crate.
pub open spec fn names() -> Set<Seq<char>> {
    strings::names().union(lists::names()).union(sets::names()).union(
        regex_funcs::names(),
    ).union(urls::names()).union(ip::names()).union(semver_funcs::names()).union(
        format::names(),
    ).union(quantity::names()).union(dispatch::names())
}

/// Adds every function of this crate to `ctx`, each under its name: those of each kind of
/// value first, and last those that more than one kind shares.
pub fn register_all(ctx: &mut cel::Context<'_>)
    ensures
        engine::functions_added(*old(ctx), *final(ctx), names()),
{
    strings::register(ctx);
    lists::register(ctx);
    sets::register(ctx);
    regex_funcs::register(ctx);
    urls::register(ctx);
    ip::register(ctx);
    semver_funcs::register(ctx);
    format::register(ctx);
    quantity::register(ctx);
    dispatch::register(ctx);
    assert(engine::is_root(*old(ctx)) ==> engine::function_names(*ctx) =~= engine::function_names(
        *old(ctx),
    ).union(names()));
}

} // verus!
