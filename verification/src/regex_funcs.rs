//! Regular expressions for expressions: `find` and `findAll`.

use vstd::prelude::*;
use vstd::string::*;
use crate::engine::{add_text_text_method, add_text_variadic_method};
use crate::model::{CelValue, CelView, FunctionError};
use crate::strings::{int_argument, text_argument, text_list, texts_view};
use crate::text::concat2;

verus! {

/// Whether `Regex::new` accepts `pattern`.
pub uninterp spec fn pattern_compiles(pattern: Seq<char>) -> bool;

/// The matches of `pattern` in `text`, as `Regex::find_iter` finds them: from the left,
/// without overlap.
pub uninterp spec fn pattern_matches(pattern: Seq<char>, text: Seq<char>) -> Seq<Seq<char>>;

/// `Regex::new` on `pattern`, then `Regex::find_iter` on `text`, the text of each match
/// collected. On failure, `Display` of the error.
///
/// The outcome is a function of the two texts alone.
#[verifier::external_body]
fn all_matches(pattern: &str, text: &str) -> (r: Result<Vec<String>, String>)
    ensures
        match r {
            Ok(found) => pattern_compiles(pattern@) && texts_view(found@) == pattern_matches(
                pattern@,
                text@,
            ),
            Err(_) => !pattern_compiles(pattern@),
        },
{
    let re = regex::Regex::new(pattern).map_err(|e| e.to_string())?;
    Ok(re.find_iter(text).map(|m| m.as_str().to_string()).collect())
}

/// `<string>.find(<string>)`: the first match of the pattern in the string; the empty
/// string where there is none.
pub fn find(this: &str, pattern: &str) -> (r: Result<CelValue, FunctionError>)
    ensures
        match r {
            Ok(v) => pattern_compiles(pattern@) && v@ == CelView::String(
                if pattern_matches(pattern@, this@).len() > 0 {
                    pattern_matches(pattern@, this@)[0]
                } else {
                    Seq::empty()
                },
            ),
            Err(e) => !pattern_compiles(pattern@) && e.function@ == "find"@,
        },
{
    match all_matches(pattern, this) {
        Ok(found) => {
            if found.len() > 0 {
                Ok(CelValue::String(found[0].clone()))
            } else {
                Ok(CelValue::String(String::new()))
            }
        },
        Err(e) => {
            let message = concat2("invalid regex: ", e.as_str());
            Err(FunctionError::new("find", message.as_str()))
        },
    }
}

/// How many matches `findAll` gives at most, for a limit that was asked as `asked`: so
/// many; every one where the limit is negative or none was said.
pub open spec fn match_limit(asked: Option<i64>, found: nat) -> nat {
    match asked {
        Some(n) => if 0 <= n < found {
            n as nat
        } else {
            found
        },
        None => found,
    }
}

/// `<string>.findAll(<string>)` and `<string>.findAll(<string>, <int>)`: the matches of
/// the pattern in the string, all of them or the first so many.
pub fn find_all(this: &str, args: &Vec<CelValue>) -> (r: Result<CelValue, FunctionError>)
    ensures
        match r {
            Ok(v) => text_argument(args@, 0) matches Some(pattern) && pattern_compiles(pattern)
                && v@ == text_list(
                pattern_matches(pattern, this@).take(
                    match_limit(
                        int_argument(args@, 1),
                        pattern_matches(pattern, this@).len(),
                    ) as int,
                ),
            ),
            Err(e) => e.function@ == "findAll"@ && match text_argument(args@, 0) {
                Some(pattern) => !pattern_compiles(pattern),
                None => e.message@ == "expected string pattern"@,
            },
        },
{
    let pattern = match crate::strings::text_argument_of(args, 0) {
        Some(s) => s,
        None => {
            return Err(FunctionError::new("findAll", "expected string pattern"));
        },
    };
    let found = match all_matches(pattern, this) {
        Ok(found) => found,
        Err(e) => {
            let message = concat2("invalid regex: ", e.as_str());
            return Err(FunctionError::new("findAll", message.as_str()));
        },
    };
    let limit: usize = match crate::strings::int_argument_of(args, 1) {
        Some(n) => if n >= 0 && (n as u64) < found.len() as u64 {
            n as usize
        } else {
            found.len()
        },
        None => found.len(),
    };
    let mut kept: Vec<String> = Vec::new();
    let mut i: usize = 0;
    while i < limit
        invariant
            i <= limit <= found.len(),
            kept.len() == i,
            forall|j: int| 0 <= j < i ==> (#[trigger] kept[j])@ == found[j]@,
        decreases limit - i,
    {
        kept.push(found[i].clone());
        i += 1;
    }
    assert(texts_view(kept@) =~= texts_view(found@).take(limit as int));
    Ok(crate::strings::text_list_of(kept))
}

/// The names of the functions of regular expressions.
pub open spec fn names() -> Set<Seq<char>> {
    set![
        "find"@,
        "findAll"@,
    ]
}

/// Adds `find` and `findAll`.
pub fn register(ctx: &mut cel::Context<'_>)
    ensures
        crate::engine::functions_added(*old(ctx), *final(ctx), names()),
{
    add_text_text_method(ctx, "find", find);
    add_text_variadic_method(ctx, "findAll", find_all);
    assert(crate::engine::is_root(*old(ctx)) ==> crate::engine::function_names(*ctx)
        =~= crate::engine::function_names(*old(ctx)).union(names()));
}

} // verus!
